//! The termination watchdog: the periodic sweep that finds backends past
//! their absolute expiration or idle budget, issues soft terminates, and —
//! when a grace deadline is configured — escalates stragglers to a hard
//! terminate so reclamation eventually happens. Both boundaries are
//! strict: a backend exactly at its budget is not yet a candidate.

use vstd::prelude::*;
use crate::lifecycle::report_applied;
use crate::state::{backend_of, has_backend, Backend, Controller};
use crate::types::{status_rank, BackendStatus};

verus! {

/// Whether a terminate signal is the graceful or the immediate kind.
#[derive(Clone, Copy, PartialEq, Eq, Structural, Debug)]
pub enum TerminateKind {
    Soft,
    Hard,
}

/// An absolute expiration in the strict past of `as_of`.
pub open spec fn expired(b: Backend, as_of: u64) -> bool {
    match b.expiration_time {
        Some(t) => t < as_of,
        None => false,
    }
}

/// Idle strictly longer than the allowed budget. At exactly the budget the
/// backend is not yet idle-expired, so tick alignment never terminates a
/// backend prematurely.
pub open spec fn idle_expired(b: Backend, as_of: u64) -> bool {
    match b.allowed_idle_seconds {
        Some(a) => as_of - b.last_keepalive > a,
        None => false,
    }
}

/// A termination candidate: a backend not yet on its way down whose
/// expiration has passed or whose idle budget is exhausted.
pub open spec fn is_candidate(b: Backend, as_of: u64) -> bool {
    &&& status_rank(b.status) < status_rank(BackendStatus::Terminating)
    &&& (expired(b, as_of) || idle_expired(b, as_of))
}

/// The idle boundary is strict: at `last_keepalive == as_of - allowed` the
/// backend is not idle-expired; one second later it is.
pub proof fn lemma_idle_boundary(b: Backend, as_of: u64, allowed: u64)
    requires
        b.allowed_idle_seconds == Some(allowed),
    ensures
        as_of - b.last_keepalive == allowed ==> !idle_expired(b, as_of),
        as_of - b.last_keepalive == allowed + 1 ==> idle_expired(b, as_of),
{
}

/// A soft-terminated backend that has sat in `Terminating` longer than the
/// configured grace deadline, and is due a hard terminate. With no
/// deadline configured, nothing escalates.
pub open spec fn escalation_due(b: Backend, as_of: u64, escalate_after: Option<u64>) -> bool {
    match escalate_after {
        Some(g) => b.status is Terminating && as_of - b.last_status_time > g,
        None => false,
    }
}

/// What one sweep pass decides for one backend.
pub open spec fn sweep_action_of(b: Backend, as_of: u64, escalate_after: Option<u64>) -> Option<
    (u64, TerminateKind),
> {
    if is_candidate(b, as_of) {
        Some((b.id, TerminateKind::Soft))
    } else if escalation_due(b, as_of, escalate_after) {
        Some((b.id, TerminateKind::Hard))
    } else {
        None
    }
}

/// Every decision of one sweep pass, in registry order.
pub open spec fn sweep_actions_spec(
    bs: Seq<Backend>,
    as_of: u64,
    escalate_after: Option<u64>,
) -> Seq<(u64, TerminateKind)>
    decreases bs.len(),
{
    if bs.len() == 0 {
        Seq::empty()
    } else {
        sweep_actions_spec(bs.drop_last(), as_of, escalate_after) + match sweep_action_of(
            bs.last(),
            as_of,
            escalate_after,
        ) {
            Some(a) => seq![a],
            None => Seq::empty(),
        }
    }
}

/// The ids of the termination candidates, in registry order.
pub open spec fn candidate_ids(bs: Seq<Backend>, as_of: u64) -> Seq<u64>
    decreases bs.len(),
{
    if bs.len() == 0 {
        Seq::empty()
    } else {
        candidate_ids(bs.drop_last(), as_of) + if is_candidate(bs.last(), as_of) {
            seq![bs.last().id]
        } else {
            Seq::empty()
        }
    }
}

/// The status a terminate signal drives a backend toward.
pub open spec fn terminate_status(hard: bool) -> BackendStatus {
    if hard {
        BackendStatus::HardTerminating
    } else {
        BackendStatus::Terminating
    }
}

/// Whether one backend is a termination candidate at `as_of`.
pub fn is_termination_candidate(b: &Backend, as_of: u64) -> (r: bool)
    ensures
        r == is_candidate(*b, as_of),
{
    let not_going_down = crate::types::status_rank_exec(b.status) < crate::types::status_rank_exec(
        BackendStatus::Terminating,
    );
    let past_expiration = match b.expiration_time {
        Some(t) => t < as_of,
        None => false,
    };
    let past_idle = match b.allowed_idle_seconds {
        Some(a) => as_of > b.last_keepalive && as_of - b.last_keepalive > a,
        None => false,
    };
    not_going_down && (past_expiration || past_idle)
}

impl Controller {
    /// The ids of every termination candidate at `as_of`.
    pub fn termination_candidates(&self, as_of: u64) -> (r: Vec<u64>)
        ensures
            r@ == candidate_ids(self.backends@, as_of),
    {
        let mut out: Vec<u64> = Vec::new();
        let mut i: usize = 0;
        proof {
            assert(self.backends@.take(0) =~= Seq::<Backend>::empty());
        }
        while i < self.backends.len()
            invariant
                i <= self.backends@.len(),
                out@ == candidate_ids(self.backends@.take(i as int), as_of),
            decreases self.backends@.len() - i,
        {
            proof {
                let cur = self.backends@.take(i + 1);
                assert(cur.drop_last() =~= self.backends@.take(i as int));
                assert(cur.last() == self.backends@[i as int]);
            }
            if is_termination_candidate(&self.backends[i], as_of) {
                out.push(self.backends[i].id);
                proof {
                    assert(out@ =~= candidate_ids(self.backends@.take(i + 1), as_of));
                }
            } else {
                proof {
                    assert(out@ =~= candidate_ids(self.backends@.take(i + 1), as_of));
                }
            }
            i += 1;
        }
        proof {
            assert(self.backends@.take(self.backends@.len() as int) =~= self.backends@);
        }
        out
    }

    /// One watchdog pass, decisions only: candidates get a soft terminate;
    /// backends soft-terminated longer ago than the grace deadline get a
    /// hard one. The caller applies each action with `terminate_backend`
    /// and dispatches the matching signal to the drone.
    pub fn sweep_actions(&self, as_of: u64, escalate_after: Option<u64>) -> (r: Vec<
        (u64, TerminateKind),
    >)
        ensures
            r@ == sweep_actions_spec(self.backends@, as_of, escalate_after),
    {
        let mut out: Vec<(u64, TerminateKind)> = Vec::new();
        let mut i: usize = 0;
        proof {
            assert(self.backends@.take(0) =~= Seq::<Backend>::empty());
        }
        while i < self.backends.len()
            invariant
                i <= self.backends@.len(),
                out@ == sweep_actions_spec(self.backends@.take(i as int), as_of, escalate_after),
            decreases self.backends@.len() - i,
        {
            proof {
                let cur = self.backends@.take(i + 1);
                assert(cur.drop_last() =~= self.backends@.take(i as int));
                assert(cur.last() == self.backends@[i as int]);
            }
            if is_termination_candidate(&self.backends[i], as_of) {
                out.push((self.backends[i].id, TerminateKind::Soft));
            } else {
                let terminating = match self.backends[i].status {
                    BackendStatus::Terminating => true,
                    _ => false,
                };
                let overdue = match escalate_after {
                    Some(g) => terminating && as_of > self.backends[i].last_status_time && as_of
                        - self.backends[i].last_status_time > g,
                    None => false,
                };
                if overdue {
                    out.push((self.backends[i].id, TerminateKind::Hard));
                }
            }
            proof {
                assert(out@ =~= sweep_actions_spec(
                    self.backends@.take(i + 1),
                    as_of,
                    escalate_after,
                ));
            }
            i += 1;
        }
        proof {
            assert(self.backends@.take(self.backends@.len() as int) =~= self.backends@);
        }
        out
    }

    /// An explicit terminate call: drives the backend toward `Terminating`
    /// (soft) or `HardTerminating` (hard) through the same monotonic apply
    /// rule as any status report, so a late or duplicate signal is a no-op.
    pub fn terminate_backend(&mut self, backend_id: u64, hard: bool, now: u64) -> (applied: bool)
        requires
            old(self).wf(),
            old(self).next_event_id < u64::MAX,
        ensures
            final(self).wf(),
            applied == (has_backend(old(self).backends@, backend_id) && status_rank(
                terminate_status(hard),
            ) > status_rank(backend_of(old(self).backends@, backend_id).status)),
            !applied ==> *final(self) == *old(self),
            applied ==> report_applied(
                *old(self),
                *final(self),
                backend_id,
                terminate_status(hard),
                now,
            ),
    {
        let status = if hard {
            BackendStatus::HardTerminating
        } else {
            BackendStatus::Terminating
        };
        self.apply_status_report(backend_id, status, now)
    }
}

} // verus!
