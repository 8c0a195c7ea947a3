//! The backend lifecycle state machine. A stored status only moves to a
//! strictly greater one, so at-least-once, duplicated and out-of-order
//! delivery of status reports all converge to the same state. Reaching
//! `Terminated` releases the key lock as part of the same transition.

use vstd::prelude::*;
use crate::events::{Event, EventKind};
use crate::state::{
    backend_ix, backend_of, has_backend, has_drone, drone_of, lemma_backend_at, unique_backend_ids,
    unique_drone_ids, unique_lock_keys, Backend, Controller, LockRow,
};
use crate::types::{status_rank, status_rank_exec, BackendStatus};

verus! {

/// The monotonic apply rule: a report moves the stored status only if it is
/// strictly greater; otherwise it is a no-op.
pub open spec fn apply_report(cur: BackendStatus, rep: BackendStatus) -> BackendStatus {
    if status_rank(rep) > status_rank(cur) {
        rep
    } else {
        cur
    }
}

/// The stored status after a whole sequence of reports, applied in order.
pub open spec fn apply_reports(cur: BackendStatus, rs: Seq<BackendStatus>) -> BackendStatus
    decreases rs.len(),
{
    if rs.len() == 0 {
        cur
    } else {
        apply_report(apply_reports(cur, rs.drop_last()), rs.last())
    }
}

/// The greatest rank among a sequence of reports; -1 when empty.
pub open spec fn max_rank(rs: Seq<BackendStatus>) -> int
    decreases rs.len(),
{
    if rs.len() == 0 {
        -1int
    } else {
        let m = max_rank(rs.drop_last());
        if status_rank(rs.last()) > m {
            status_rank(rs.last())
        } else {
            m
        }
    }
}

/// Ranks identify statuses: two statuses of equal rank are equal.
pub proof fn lemma_rank_injective(a: BackendStatus, b: BackendStatus)
    ensures
        status_rank(a) == status_rank(b) ==> a == b,
{
}

/// A report that does not exceed the stored status changes nothing.
pub proof fn lemma_report_noop(cur: BackendStatus, rep: BackendStatus)
    ensures
        status_rank(rep) <= status_rank(cur) ==> apply_report(cur, rep) == cur,
{
}

/// Two reports can arrive in either order; the stored status ends the same.
pub proof fn lemma_report_commutes(cur: BackendStatus, a: BackendStatus, b: BackendStatus)
    ensures
        apply_report(apply_report(cur, a), b) == apply_report(apply_report(cur, b), a),
{
}

/// Applying the same report twice is the same as applying it once.
pub proof fn lemma_report_idempotent(cur: BackendStatus, a: BackendStatus)
    ensures
        apply_report(apply_report(cur, a), a) == apply_report(cur, a),
{
}

/// After any sequence of reports the stored rank is the maximum of the
/// starting rank and the ranks reported.
pub proof fn lemma_apply_reports_rank(cur: BackendStatus, rs: Seq<BackendStatus>)
    ensures
        status_rank(apply_reports(cur, rs)) == if max_rank(rs) > status_rank(cur) {
            max_rank(rs)
        } else {
            status_rank(cur)
        },
    decreases rs.len(),
{
    if rs.len() > 0 {
        lemma_apply_reports_rank(cur, rs.drop_last());
    }
}

/// `max_rank` is bounded by its members and attained by one of them.
pub proof fn lemma_max_rank_props(rs: Seq<BackendStatus>)
    ensures
        forall|i: int| 0 <= i < rs.len() ==> status_rank(#[trigger] rs[i]) <= max_rank(rs),
        rs.len() > 0 ==> exists|i: int|
            0 <= i < rs.len() && status_rank(#[trigger] rs[i]) == max_rank(rs),
    decreases rs.len(),
{
    if rs.len() > 0 {
        lemma_max_rank_props(rs.drop_last());
        assert forall|i: int| 0 <= i < rs.len() implies status_rank(#[trigger] rs[i]) <= max_rank(
            rs,
        ) by {
            if i < rs.len() - 1 {
                assert(rs[i] == rs.drop_last()[i]);
            }
        }
        if status_rank(rs.last()) > max_rank(rs.drop_last()) {
            assert(status_rank(rs[rs.len() - 1]) == max_rank(rs));
        } else {
            if rs.drop_last().len() > 0 {
                let j = choose|j: int|
                    0 <= j < rs.drop_last().len() && status_rank(#[trigger] rs.drop_last()[j])
                        == max_rank(rs.drop_last());
                assert(rs[j] == rs.drop_last()[j]);
                assert(status_rank(rs[j]) == max_rank(rs));
            } else {
                assert(rs.len() == 1);
                assert(status_rank(rs[0]) == max_rank(rs));
            }
        }
    }
}

/// Delivery order and duplication do not matter: two report sequences with
/// the same contents as a multiset drive a backend to the same status, and
/// that status is the same as applying the distinct reports once in order.
pub proof fn lemma_reports_converge(
    cur: BackendStatus,
    rs1: Seq<BackendStatus>,
    rs2: Seq<BackendStatus>,
)
    requires
        rs1.to_multiset() == rs2.to_multiset(),
    ensures
        apply_reports(cur, rs1) == apply_reports(cur, rs2),
{
    vstd::seq_lib::to_multiset_len(rs1);
    vstd::seq_lib::to_multiset_len(rs2);
    lemma_max_rank_props(rs1);
    lemma_max_rank_props(rs2);
    assert(rs1.len() == rs2.len());
    if rs1.len() > 0 {
        let i1 = choose|i: int|
            0 <= i < rs1.len() && status_rank(#[trigger] rs1[i]) == max_rank(rs1);
        assert(rs1.contains(rs1[i1]));
        vstd::seq_lib::to_multiset_contains(rs1, rs1[i1]);
        vstd::seq_lib::to_multiset_contains(rs2, rs1[i1]);
        assert(rs2.contains(rs1[i1]));
        let j1 = choose|j: int| 0 <= j < rs2.len() && rs2[j] == rs1[i1];
        assert(status_rank(rs2[j1]) <= max_rank(rs2));
        let i2 = choose|i: int|
            0 <= i < rs2.len() && status_rank(#[trigger] rs2[i]) == max_rank(rs2);
        assert(rs2.contains(rs2[i2]));
        vstd::seq_lib::to_multiset_contains(rs2, rs2[i2]);
        vstd::seq_lib::to_multiset_contains(rs1, rs2[i2]);
        assert(rs1.contains(rs2[i2]));
        let j2 = choose|j: int| 0 <= j < rs1.len() && rs1[j] == rs2[i2];
        assert(status_rank(rs1[j2]) <= max_rank(rs1));
        assert(max_rank(rs1) == max_rank(rs2));
    }
    lemma_apply_reports_rank(cur, rs1);
    lemma_apply_reports_rank(cur, rs2);
    lemma_rank_injective(apply_reports(cur, rs1), apply_reports(cur, rs2));
}

/// Duplicates do not matter either: any two report sequences whose
/// greatest rank agrees — applying duplicates in any order, or the
/// distinct reports once in order — drive a backend to the same status.
pub proof fn lemma_duplicate_delivery_converges(
    cur: BackendStatus,
    rs1: Seq<BackendStatus>,
    rs2: Seq<BackendStatus>,
)
    requires
        max_rank(rs1) == max_rank(rs2),
    ensures
        apply_reports(cur, rs1) == apply_reports(cur, rs2),
{
    lemma_apply_reports_rank(cur, rs1);
    lemma_apply_reports_rank(cur, rs2);
    lemma_rank_injective(apply_reports(cur, rs1), apply_reports(cur, rs2));
}

/// The lock table without the rows held by one backend: what remains after
/// that backend terminates.
pub open spec fn lock_rows_without(ls: Seq<LockRow>, backend: u64) -> Seq<LockRow> {
    ls.filter(|l: LockRow| l.backend != backend)
}

/// Filtering a well-keyed lock table keeps it well-keyed, keeps only rows
/// of other backends, and invents no rows.
pub proof fn lemma_lock_rows_without(ls: Seq<LockRow>, backend: u64)
    requires
        unique_lock_keys(ls),
    ensures
        unique_lock_keys(lock_rows_without(ls, backend)),
        forall|i: int|
            0 <= i < lock_rows_without(ls, backend).len() ==> ls.contains(
                #[trigger] lock_rows_without(ls, backend)[i],
            ) && lock_rows_without(ls, backend)[i].backend != backend,
    decreases ls.len(),
{
    reveal_with_fuel(Seq::filter, 2);
    if ls.len() > 0 {
        let prefix = ls.drop_last();
        assert(unique_lock_keys(prefix)) by {
            assert forall|i: int, j: int|
                0 <= i < prefix.len() && 0 <= j < prefix.len() && i != j implies !((
            #[trigger] prefix[i]).cluster@ == (#[trigger] prefix[j]).cluster@ && prefix[i].key@
                == prefix[j].key@) by {
                assert(prefix[i] == ls[i] && prefix[j] == ls[j]);
            }
        }
        lemma_lock_rows_without(prefix, backend);
        let sub = lock_rows_without(prefix, backend);
        let out = lock_rows_without(ls, backend);
        assert forall|i: int| 0 <= i < sub.len() implies ls.contains(sub[i]) by {
            assert(prefix.contains(sub[i]));
            let j = choose|j: int| 0 <= j < prefix.len() && prefix[j] == sub[i];
            assert(ls[j] == sub[i]);
        }
        if ls.last().backend != backend {
            assert(out == sub.push(ls.last()));
            assert forall|i: int, j: int|
                0 <= i < out.len() && 0 <= j < out.len() && i != j implies !((
            #[trigger] out[i]).cluster@ == (#[trigger] out[j]).cluster@ && out[i].key@
                == out[j].key@) by {
                if i < out.len() - 1 && j < out.len() - 1 {
                    assert(out[i] == sub[i] && out[j] == sub[j]);
                } else {
                    let k = if i < out.len() - 1 {
                        i
                    } else {
                        j
                    };
                    assert(out[k] == sub[k]);
                    assert(ls.contains(sub[k]));
                    let m = choose|m: int| 0 <= m < ls.len() && ls[m] == sub[k];
                    if m == ls.len() - 1 {
                        // the same row cannot be both kept in the prefix and be the last
                        assert(prefix.contains(sub[k]));
                        let p = choose|p: int| 0 <= p < prefix.len() && prefix[p] == sub[k];
                        assert(ls[p] == sub[k]);
                        assert(!(ls[p].cluster@ == ls[ls.len() - 1].cluster@ && ls[p].key@
                            == ls[ls.len() - 1].key@));
                    } else {
                        assert(!(ls[m].cluster@ == ls[ls.len() - 1].cluster@ && ls[m].key@
                            == ls[ls.len() - 1].key@));
                    }
                }
            }
            assert(ls.contains(ls.last())) by {
                assert(ls[ls.len() - 1] == ls.last());
            }
        } else {
            assert(out == sub);
        }
    }
}

/// Looking up backends after replacing the row at `ix` by one with the same
/// id: presence is unchanged, other ids resolve to the same row, and the
/// replaced id resolves to the new row.
pub proof fn lemma_backend_lookup_update(bs: Seq<Backend>, ix: int, b: Backend, id: u64)
    requires
        unique_backend_ids(bs),
        0 <= ix < bs.len(),
        b.id == bs[ix].id,
    ensures
        unique_backend_ids(bs.update(ix, b)),
        has_backend(bs.update(ix, b), id) == has_backend(bs, id),
        id != bs[ix].id && has_backend(bs, id) ==> backend_of(bs.update(ix, b), id) == backend_of(
            bs,
            id,
        ),
        id == bs[ix].id ==> has_backend(bs.update(ix, b), id) && backend_of(bs.update(ix, b), id)
            == b,
{
    let bs2 = bs.update(ix, b);
    assert(forall|i: int| 0 <= i < bs.len() ==> (#[trigger] bs2[i]).id == bs[i].id);
    assert(unique_backend_ids(bs2));
    if has_backend(bs, id) {
        let i = backend_ix(bs, id);
        assert(bs2[i].id == id);
        assert(has_backend(bs2, id));
    }
    if has_backend(bs2, id) {
        let i = backend_ix(bs2, id);
        assert(bs[i].id == id);
        assert(has_backend(bs, id));
    }
    if id != bs[ix].id && has_backend(bs, id) {
        let i = backend_ix(bs, id);
        let i2 = backend_ix(bs2, id);
        assert(i != ix && i2 != ix);
        if i != i2 {
            assert(bs[i].id != bs[i2].id);
            assert(bs2[i2].id == bs[i2].id);
        }
        assert(bs2[i2] == bs[i]);
    }
    if id == bs[ix].id {
        assert(bs2[ix].id == id);
        assert(has_backend(bs2, id));
        let i2 = backend_ix(bs2, id);
        if i2 != ix {
            assert(bs2[i2].id != bs2[ix].id);
        }
        assert(bs2[i2] == b);
    }
}

/// How a backend row looks after a report is applied: only the status and
/// its timestamp move.
pub open spec fn backend_reported(
    post: Backend,
    pre: Backend,
    status: BackendStatus,
    now: u64,
) -> bool {
    &&& post.id == pre.id
    &&& post.cluster == pre.cluster
    &&& post.drone == pre.drone
    &&& post.status == status
    &&& post.last_status_time == now
    &&& post.last_keepalive == pre.last_keepalive
    &&& post.expiration_time == pre.expiration_time
    &&& post.allowed_idle_seconds == pre.allowed_idle_seconds
    &&& post.executable == pre.executable
}

/// A backend row after a keepalive: only the idle clock moves.
pub open spec fn backend_kept_alive(post: Backend, pre: Backend, now: u64) -> bool {
    &&& post.id == pre.id
    &&& post.cluster == pre.cluster
    &&& post.drone == pre.drone
    &&& post.status == pre.status
    &&& post.last_status_time == pre.last_status_time
    &&& post.last_keepalive == now
    &&& post.expiration_time == pre.expiration_time
    &&& post.allowed_idle_seconds == pre.allowed_idle_seconds
    &&& post.executable == pre.executable
}

/// Everything `apply_status_report` changes when a report is applied; the
/// conjunction of these clauses pins the whole new state down.
pub open spec fn report_applied(
    pre: Controller,
    post: Controller,
    backend_id: u64,
    status: BackendStatus,
    now: u64,
) -> bool {
    let ix = backend_ix(pre.backends@, backend_id);
    &&& backend_reported(post.backends@[ix], pre.backends@[ix], status, now)
    &&& post.backends@ == pre.backends@.update(ix, post.backends@[ix])
    &&& post.locks@ == if status is Terminated {
        lock_rows_without(pre.locks@, backend_id)
    } else {
        pre.locks@
    }
    &&& post.events@ == pre.events@.push(
        Event {
            id: pre.next_event_id,
            timestamp: now,
            key: Some(backend_id),
            kind: EventKind::BackendStatusChanged { backend: backend_id, status },
        },
    )
    &&& post.next_event_id == pre.next_event_id + 1
    &&& post.drones@ == pre.drones@
    &&& post.next_backend_id == pre.next_backend_id
    &&& post.next_drone_id == pre.next_drone_id
    &&& post.default_cluster == pre.default_cluster
    &&& post.heartbeat_timeout_seconds == pre.heartbeat_timeout_seconds
}

proof fn lemma_wf_after_report(
    pre: Controller,
    post: Controller,
    backend_id: u64,
    status: BackendStatus,
    now: u64,
)
    requires
        pre.wf(),
        has_backend(pre.backends@, backend_id),
        status_rank(status) > status_rank(backend_of(pre.backends@, backend_id).status),
        report_applied(pre, post, backend_id, status, now),
    ensures
        post.wf(),
{
    let ix = backend_ix(pre.backends@, backend_id);
    let nb = post.backends@[ix];
    assert(0 <= ix < pre.backends@.len() && pre.backends@[ix].id == backend_id);
    lemma_backend_lookup_update(pre.backends@, ix, nb, backend_id);
    assert(unique_backend_ids(post.backends@));
    assert(forall|i: int|
        0 <= i < post.backends@.len() ==> (#[trigger] post.backends@[i]).id
            < post.next_backend_id);
    assert(unique_drone_ids(post.drones@));
    assert(forall|i: int|
        0 <= i < post.drones@.len() ==> (#[trigger] post.drones@[i]).id < post.next_drone_id);
    // each backend still sits on its drone, in its cluster
    assert forall|i: int| 0 <= i < post.backends@.len() implies has_drone(
        post.drones@,
        (#[trigger] post.backends@[i]).drone,
    ) && drone_of(post.drones@, post.backends@[i].drone).cluster@
        == post.backends@[i].cluster@ by {
        assert(post.backends@[i].drone == pre.backends@[i].drone);
        assert(post.backends@[i].cluster@ == pre.backends@[i].cluster@);
    }
    // each lock row still points at an existing, non-Terminated backend
    if status is Terminated {
        lemma_lock_rows_without(pre.locks@, backend_id);
        assert forall|i: int| 0 <= i < post.locks@.len() implies has_backend(
            post.backends@,
            (#[trigger] post.locks@[i]).backend,
        ) && !(backend_of(post.backends@, post.locks@[i].backend).status is Terminated) by {
            let row = post.locks@[i];
            assert(pre.locks@.contains(row) && row.backend != backend_id);
            let j = choose|j: int| 0 <= j < pre.locks@.len() && pre.locks@[j] == row;
            assert(has_backend(pre.backends@, row.backend));
            lemma_backend_lookup_update(pre.backends@, ix, nb, row.backend);
            assert(backend_of(post.backends@, row.backend) == backend_of(
                pre.backends@,
                row.backend,
            ));
        }
    } else {
        assert forall|i: int| 0 <= i < post.locks@.len() implies has_backend(
            post.backends@,
            (#[trigger] post.locks@[i]).backend,
        ) && !(backend_of(post.backends@, post.locks@[i].backend).status is Terminated) by {
            let row = post.locks@[i];
            assert(pre.locks@[i] == row);
            assert(has_backend(pre.backends@, row.backend));
            lemma_backend_lookup_update(pre.backends@, ix, nb, row.backend);
            if row.backend == backend_id {
                assert(backend_of(post.backends@, row.backend) == nb);
                assert(!(nb.status is Terminated));
            } else {
                assert(backend_of(post.backends@, row.backend) == backend_of(
                    pre.backends@,
                    row.backend,
                ));
            }
        }
    }
}

impl Controller {
    /// Applies one inbound status report. Returns whether anything changed:
    /// a report for an unknown backend, or one whose status does not exceed
    /// the stored status, is a no-op, which is what makes the machine safe
    /// under at-least-once, duplicate and out-of-order delivery. Reaching
    /// `Terminated` releases any lock rows the backend held, immediately
    /// freeing its key for reacquisition.
    pub fn apply_status_report(
        &mut self,
        backend_id: u64,
        status: BackendStatus,
        now: u64,
    ) -> (applied: bool)
        requires
            old(self).wf(),
            old(self).next_event_id < u64::MAX,
        ensures
            final(self).wf(),
            applied == (has_backend(old(self).backends@, backend_id) && status_rank(status)
                > status_rank(backend_of(old(self).backends@, backend_id).status)),
            !applied ==> *final(self) == *old(self),
            applied ==> report_applied(*old(self), *final(self), backend_id, status, now),
            applied ==> backend_of(final(self).backends@, backend_id).status == status,
    {
        let ix = match self.find_backend(backend_id) {
            Some(ix) => ix,
            None => {
                return false;
            },
        };
        proof {
            lemma_backend_at(self.backends@, ix as int);
        }
        let cur = self.backends[ix].status;
        if status_rank_exec(status) <= status_rank_exec(cur) {
            return false;
        }
        let mut b = self.backends.remove(ix);
        b.status = status;
        b.last_status_time = now;
        self.backends.insert(ix, b);
        proof {
            assert(self.backends@ =~= old(self).backends@.update(
                ix as int,
                self.backends@[ix as int],
            ));
        }
        let terminal = match status {
            BackendStatus::Terminated => true,
            _ => false,
        };
        if terminal {
            self.remove_lock_rows(backend_id);
        }
        self.events.push(
            Event {
                id: self.next_event_id,
                timestamp: now,
                key: Some(backend_id),
                kind: EventKind::BackendStatusChanged { backend: backend_id, status },
            },
        );
        self.next_event_id = self.next_event_id + 1;
        proof {
            assert(report_applied(*old(self), *self, backend_id, status, now));
            lemma_wf_after_report(*old(self), *self, backend_id, status, now);
            lemma_backend_lookup_update(
                old(self).backends@,
                ix as int,
                self.backends@[ix as int],
                backend_id,
            );
        }
        true
    }

    /// Records a client keepalive, resetting the backend's idle clock. A
    /// keepalive for an unknown or already-Terminated backend is ignored:
    /// once Terminated, no further field mutation is accepted.
    pub fn record_keepalive(&mut self, backend_id: u64, now: u64) -> (ok: bool)
        requires
            old(self).wf(),
        ensures
            final(self).wf(),
            ok == (has_backend(old(self).backends@, backend_id) && !(backend_of(
                old(self).backends@,
                backend_id,
            ).status is Terminated)),
            !ok ==> *final(self) == *old(self),
            ok ==> ({
                let pre = *old(self);
                let post = *final(self);
                let ix = backend_ix(pre.backends@, backend_id);
                &&& backend_kept_alive(post.backends@[ix], pre.backends@[ix], now)
                &&& post.backends@ == pre.backends@.update(ix, post.backends@[ix])
                &&& post.locks@ == pre.locks@
                &&& post.drones@ == pre.drones@
                &&& post.events@ == pre.events@
                &&& post.next_backend_id == pre.next_backend_id
                &&& post.next_drone_id == pre.next_drone_id
                &&& post.next_event_id == pre.next_event_id
                &&& post.default_cluster == pre.default_cluster
                &&& post.heartbeat_timeout_seconds == pre.heartbeat_timeout_seconds
            }),
    {
        let ix = match self.find_backend(backend_id) {
            Some(ix) => ix,
            None => {
                return false;
            },
        };
        proof {
            lemma_backend_at(self.backends@, ix as int);
        }
        let terminated = match self.backends[ix].status {
            BackendStatus::Terminated => true,
            _ => false,
        };
        if terminated {
            return false;
        }
        let mut b = self.backends.remove(ix);
        b.last_keepalive = now;
        self.backends.insert(ix, b);
        proof {
            assert(self.backends@ =~= old(self).backends@.update(
                ix as int,
                self.backends@[ix as int],
            ));
            let pre = *old(self);
            let nb = self.backends@[ix as int];
            lemma_backend_lookup_update(pre.backends@, ix as int, nb, backend_id);
            assert forall|i: int| 0 <= i < self.locks@.len() implies has_backend(
                self.backends@,
                (#[trigger] self.locks@[i]).backend,
            ) && !(backend_of(self.backends@, self.locks@[i].backend).status is Terminated) by {
                assert(has_backend(pre.backends@, pre.locks@[i].backend));
                lemma_backend_lookup_update(pre.backends@, ix as int, nb, pre.locks@[i].backend);
            }
            assert forall|i: int| 0 <= i < self.backends@.len() implies has_drone(
                self.drones@,
                (#[trigger] self.backends@[i]).drone,
            ) && drone_of(self.drones@, self.backends@[i].drone).cluster@
                == self.backends@[i].cluster@ by {
                assert(self.backends@[i].drone == pre.backends@[i].drone);
                assert(self.backends@[i].cluster@ == pre.backends@[i].cluster@);
            }
        }
        true
    }

    /// Removes every lock row held by one backend.
    fn remove_lock_rows(&mut self, backend_id: u64)
        ensures
            final(self).locks@ == lock_rows_without(old(self).locks@, backend_id),
            final(self).drones@ == old(self).drones@,
            final(self).backends@ == old(self).backends@,
            final(self).events@ == old(self).events@,
            final(self).next_backend_id == old(self).next_backend_id,
            final(self).next_drone_id == old(self).next_drone_id,
            final(self).next_event_id == old(self).next_event_id,
            final(self).default_cluster == old(self).default_cluster,
            final(self).heartbeat_timeout_seconds == old(self).heartbeat_timeout_seconds,
    {
        let mut kept: Vec<LockRow> = Vec::new();
        let mut i: usize = 0;
        proof {
            assert(self.locks@.take(0).filter(|l: LockRow| l.backend != backend_id)
                =~= Seq::<LockRow>::empty());
        }
        while i < self.locks.len()
            invariant
                i <= self.locks@.len(),
                *self == *old(self),
                kept@ == lock_rows_without(self.locks@.take(i as int), backend_id),
            decreases self.locks@.len() - i,
        {
            proof {
                reveal_with_fuel(Seq::filter, 2);
                let pre = self.locks@.take(i as int);
                let cur = self.locks@.take(i + 1);
                assert(cur.drop_last() =~= pre);
                assert(cur.last() == self.locks@[i as int]);
                assert(lock_rows_without(cur, backend_id) == if self.locks@[i as int].backend
                    != backend_id {
                    lock_rows_without(pre, backend_id).push(cur.last())
                } else {
                    lock_rows_without(pre, backend_id)
                });
            }
            if self.locks[i].backend != backend_id {
                let row = LockRow {
                    cluster: self.locks[i].cluster.clone(),
                    key: self.locks[i].key.clone(),
                    backend: self.locks[i].backend,
                    tag: self.locks[i].tag.clone(),
                };
                proof {
                    assert(row == self.locks@[i as int]);
                }
                kept.push(row);
            }
            i += 1;
        }
        proof {
            assert(self.locks@.take(self.locks@.len() as int) =~= self.locks@);
        }
        self.locks = kept;
    }
}

} // verus!
