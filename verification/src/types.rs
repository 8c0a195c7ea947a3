//! Plain data carried through the orchestrator: statuses, spawn
//! configuration, connect requests and responses, and the error kinds the
//! control API surfaces.

use vstd::prelude::*;

verus! {

/// Health of a drone (worker node). Fail-stop: once `Terminated`, a drone
/// never becomes `Available` again.
#[derive(Clone, Copy, PartialEq, Eq, Structural, Debug)]
pub enum NodeStatus {
    Starting,
    Available,
    Terminated,
}

/// Status of a backend. Totally ordered by `status_rank`; a stored status
/// only ever moves to a strictly greater one.
#[derive(Clone, Copy, PartialEq, Eq, Structural, Debug)]
pub enum BackendStatus {
    Scheduled,
    Starting,
    Ready,
    Terminating,
    HardTerminating,
    Terminated,
}

/// The total order on backend statuses:
/// `Scheduled < Starting < Ready < Terminating < HardTerminating < Terminated`.
pub open spec fn status_rank(s: BackendStatus) -> int {
    match s {
        BackendStatus::Scheduled => 0,
        BackendStatus::Starting => 1,
        BackendStatus::Ready => 2,
        BackendStatus::Terminating => 3,
        BackendStatus::HardTerminating => 4,
        BackendStatus::Terminated => 5,
    }
}

/// Executable comparison agreeing with `status_rank`.
pub fn status_rank_exec(s: BackendStatus) -> (r: u8)
    ensures
        r as int == status_rank(s),
{
    match s {
        BackendStatus::Scheduled => 0,
        BackendStatus::Starting => 1,
        BackendStatus::Ready => 2,
        BackendStatus::Terminating => 3,
        BackendStatus::HardTerminating => 4,
        BackendStatus::Terminated => 5,
    }
}

/// True when `a`'s rank is at least `b`'s: the caller waiting on a status
/// stream stops once the observed status reaches its target.
pub fn status_at_least(a: BackendStatus, b: BackendStatus) -> (r: bool)
    ensures
        r == (status_rank(a) >= status_rank(b)),
{
    status_rank_exec(a) >= status_rank_exec(b)
}

/// How a drone decides whether to pull a workload image.
#[derive(Clone, Copy, PartialEq, Eq, Structural, Debug)]
pub enum PullPolicy {
    IfNotPresent,
    Always,
    Never,
}

impl Default for PullPolicy {
    /// The default pull policy pulls only when the image is absent.
    fn default() -> (r: Self)
        ensures
            r == PullPolicy::IfNotPresent,
    {
        PullPolicy::IfNotPresent
    }
}

/// What to execute: an image reference, its environment, and a pull policy.
#[derive(Clone, PartialEq, Eq, Debug)]
pub struct ExecutorConfig {
    pub image: String,
    pub env: Vec<(String, String)>,
    pub pull_policy: PullPolicy,
}

/// Spawn configuration attached to a connect request: the executable plus
/// the backend's lifetime and idle budget, in seconds.
#[derive(Clone, PartialEq, Eq, Debug)]
pub struct SpawnConfig {
    pub executable: ExecutorConfig,
    pub lifetime_limit_seconds: Option<u64>,
    pub max_idle_seconds: Option<u64>,
}

/// Client-chosen idempotency key. An empty `tag` means the caller did not
/// disambiguate: it matches any stored tag.
#[derive(Clone, PartialEq, Eq, Debug)]
pub struct KeyConfig {
    pub name: String,
    pub tag: String,
}

impl Default for KeyConfig {
    /// An empty key: no name, no tag.
    fn default() -> (r: Self)
        ensures
            r.name@ == Seq::<char>::empty(),
            r.tag@ == Seq::<char>::empty(),
    {
        KeyConfig { name: String::new(), tag: String::new() }
    }
}

/// A connect request: an optional idempotency key and an optional spawn
/// configuration. The target cluster travels beside it.
#[derive(Clone, PartialEq, Eq, Debug)]
pub struct ConnectRequest {
    pub key: Option<KeyConfig>,
    pub spawn_config: Option<SpawnConfig>,
}

/// Answer to a successful connect: which backend serves the client, whether
/// this request created it, the drone it runs on when freshly spawned, and
/// the connection URL.
#[derive(Clone, PartialEq, Eq, Debug)]
pub struct ConnectResponse {
    pub backend_id: u64,
    pub spawned: bool,
    pub drone: Option<u64>,
    pub url: String,
}

/// Everything that can go wrong during connect or explicit lock release.
#[derive(Clone, PartialEq, Eq, Debug)]
pub enum ConnectError {
    /// No cluster in the request and no default cluster configured.
    NoClusterProvided,
    /// The key is unheld (or no key was given) and no spawn config came along.
    KeyUnheldNoSpawnConfig,
    /// The key is held by a live backend whose tag differs; carries the
    /// holder's tag so the caller can tell a foreign session from a retry.
    KeyHeld { tag: String },
    /// The key is held but its holder is already on its way down.
    KeyHeldUnhealthy,
    /// No eligible drone in the target cluster; nothing was created.
    NoDroneAvailable,
    /// The store transaction racing for the lock row failed; retryable.
    FailedToAcquireKey,
    /// The store transaction removing the lock row failed; retryable.
    FailedToRemoveKey,
    /// Opaque internal failure (storage, serialization).
    Other,
}

} // verus!
