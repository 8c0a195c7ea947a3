//! The append-only event log: every state-affecting mutation appends an
//! event. Ordering is per-entity only; consumers tolerate duplicates and
//! reordering, so nothing here promises a global order.

use vstd::prelude::*;
use crate::types::{BackendStatus, NodeStatus};

verus! {

/// What happened, with the structured payload of the change.
#[derive(Clone, Copy, PartialEq, Eq, Structural, Debug)]
pub enum EventKind {
    /// A fresh backend was placed on a drone.
    BackendScheduled { backend: u64, drone: u64 },
    /// A backend's stored status moved (strictly upward).
    BackendStatusChanged { backend: u64, status: BackendStatus },
    /// A drone registered for the first time.
    DroneRegistered { drone: u64 },
    /// A drone's health changed.
    DroneStatusChanged { drone: u64, status: NodeStatus },
    /// A drone left the placement pool.
    DroneDrained { drone: u64 },
    /// A key lock was released explicitly, with no successor intended.
    KeyReleased { backend: u64 },
}

/// One log entry. `key` scopes the event to a backend id; `None` means a
/// global (drone or administrative) event.
#[derive(Clone, Copy, PartialEq, Eq, Structural, Debug)]
pub struct Event {
    pub id: u64,
    pub timestamp: u64,
    pub key: Option<u64>,
    pub kind: EventKind,
}

/// Whether an event belongs to the entity-scoped stream of one backend.
pub open spec fn event_scoped_to(e: Event, backend: u64) -> bool {
    e.key == Some(backend)
}

} // verus!
