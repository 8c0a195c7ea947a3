//! Read-model helpers for the administrative surface: describing drone
//! health, mapping connect errors to API responses, explaining termination
//! candidates, and the small decisions the CLI front ends need. Each
//! result is pinned down exactly, so the glue around the library has
//! nothing left to decide.

use vstd::prelude::*;
use crate::state::Drone;
use crate::text::{duration_text, format_duration};
use crate::types::{ConnectError, NodeStatus, PullPolicy, SpawnConfig};

verus! {

/// How old a drone's last heartbeat is at `now`, in seconds (zero when the
/// clock reads earlier than the heartbeat).
pub open spec fn status_age_spec(d: Drone, now: u64) -> nat {
    if now >= d.last_heartbeat {
        (now - d.last_heartbeat) as nat
    } else {
        0
    }
}

/// The age of a drone's last heartbeat.
pub fn status_age(d: &Drone, now: u64) -> (r: u64)
    ensures
        r as nat == status_age_spec(*d, now),
{
    if now >= d.last_heartbeat {
        now - d.last_heartbeat
    } else {
        0
    }
}

/// The word shown for each drone status.
pub open spec fn node_status_word(s: NodeStatus) -> Seq<char> {
    match s {
        NodeStatus::Available => "Available"@,
        NodeStatus::Terminated => "Terminated"@,
        NodeStatus::Starting => "Starting"@,
    }
}

/// The status line shown for a drone: its status word and the age of its
/// last heartbeat.
pub open spec fn drone_status_text(d: Drone, now: u64) -> Seq<char> {
    node_status_word(d.status) + " "@ + duration_text(status_age_spec(d, now)) + " ago"@
}

/// Describes a drone's status for the operator listing: the status word
/// followed by how long ago it was observed.
pub fn describe_drone_status(drone: &Drone, now: u64) -> (r: String)
    ensures
        r@ == drone_status_text(*drone, now),
{
    let word = match drone.status {
        NodeStatus::Available => "Available",
        NodeStatus::Terminated => "Terminated",
        NodeStatus::Starting => "Starting",
    };
    let age = status_age(drone, now);
    let dur = format_duration(age);
    let mut s = String::from_str(word);
    s.append(" ");
    s.append(dur.as_str());
    s.append(" ago");
    proof {
        assert(s@ =~= drone_status_text(*drone, now));
    }
    s
}

/// The error kinds the control API reports, one per connect failure.
#[derive(Clone, Copy, PartialEq, Eq, Structural, Debug)]
pub enum ApiErrorKind {
    FailedToAcquireKey,
    KeyUnheldNoSpawnConfig,
    KeyHeldUnhealthy,
    KeyHeld,
    NoDroneAvailable,
    FailedToRemoveKey,
    NoClusterProvided,
    Other,
}

/// What the API answers for a failed connect: an HTTP status code, a
/// message, and the machine-readable kind.
pub struct ApiErrorBody {
    pub status: u16,
    pub message: String,
    pub kind: ApiErrorKind,
}

/// The response owed to each connect error: internal faults map to 500,
/// conflicts on the lock to 409, and a missing cluster to 400; storage
/// details are collapsed into a generic internal error.
pub open spec fn response_parts(e: ConnectError) -> (int, Seq<char>, ApiErrorKind) {
    match e {
        ConnectError::FailedToAcquireKey => (
            500,
            "Failed to acquire lock."@,
            ApiErrorKind::FailedToAcquireKey,
        ),
        ConnectError::KeyUnheldNoSpawnConfig => (
            409,
            "Lock is unheld but no spawn config was provided."@,
            ApiErrorKind::KeyUnheldNoSpawnConfig,
        ),
        ConnectError::KeyHeldUnhealthy => (
            500,
            "Lock is held but unhealthy."@,
            ApiErrorKind::KeyHeldUnhealthy,
        ),
        ConnectError::KeyHeld { .. } => (
            409,
            "Lock is held but tag does not match."@,
            ApiErrorKind::KeyHeld,
        ),
        ConnectError::NoDroneAvailable => (
            500,
            "No active drone available."@,
            ApiErrorKind::NoDroneAvailable,
        ),
        ConnectError::FailedToRemoveKey => (
            409,
            "Failed to remove lock."@,
            ApiErrorKind::FailedToRemoveKey,
        ),
        ConnectError::NoClusterProvided => (
            400,
            "No cluster provided, and no default cluster for this controller."@,
            ApiErrorKind::NoClusterProvided,
        ),
        ConnectError::Other => (500, "Internal error."@, ApiErrorKind::Other),
    }
}

/// Maps a connect error to the response body the API returns for it.
pub fn connect_error_to_response(e: &ConnectError) -> (r: ApiErrorBody)
    ensures
        r.status as int == response_parts(*e).0,
        r.message@ == response_parts(*e).1,
        r.kind == response_parts(*e).2,
{
    match e {
        ConnectError::FailedToAcquireKey => ApiErrorBody {
            status: 500,
            message: String::from_str("Failed to acquire lock."),
            kind: ApiErrorKind::FailedToAcquireKey,
        },
        ConnectError::KeyUnheldNoSpawnConfig => ApiErrorBody {
            status: 409,
            message: String::from_str("Lock is unheld but no spawn config was provided."),
            kind: ApiErrorKind::KeyUnheldNoSpawnConfig,
        },
        ConnectError::KeyHeldUnhealthy => ApiErrorBody {
            status: 500,
            message: String::from_str("Lock is held but unhealthy."),
            kind: ApiErrorKind::KeyHeldUnhealthy,
        },
        ConnectError::KeyHeld { .. } => ApiErrorBody {
            status: 409,
            message: String::from_str("Lock is held but tag does not match."),
            kind: ApiErrorKind::KeyHeld,
        },
        ConnectError::NoDroneAvailable => ApiErrorBody {
            status: 500,
            message: String::from_str("No active drone available."),
            kind: ApiErrorKind::NoDroneAvailable,
        },
        ConnectError::FailedToRemoveKey => ApiErrorBody {
            status: 409,
            message: String::from_str("Failed to remove lock."),
            kind: ApiErrorKind::FailedToRemoveKey,
        },
        ConnectError::NoClusterProvided => ApiErrorBody {
            status: 400,
            message: String::from_str(
                "No cluster provided, and no default cluster for this controller.",
            ),
            kind: ApiErrorKind::NoClusterProvided,
        },
        ConnectError::Other => ApiErrorBody {
            status: 500,
            message: String::from_str("Internal error."),
            kind: ApiErrorKind::Other,
        },
    }
}

/// Why a stored termination-candidate row does or does not call for
/// action when re-examined at `as_of`.
#[derive(Clone, Copy, PartialEq, Eq, Structural, Debug)]
pub enum CandidateVerdict {
    /// The expiration time lies in the future: still alive by budget.
    AlivePastExpiration,
    /// The idle budget is exhausted, by this many seconds.
    IdleOverage(u64),
    /// Neither guard fires: the row is a candidate for termination.
    Candidate,
}

/// The verdict for one candidate row: a future expiration wins, then an
/// exhausted idle budget with its overage, else the row stands.
pub open spec fn candidate_verdict_spec(
    expiration_time: Option<u64>,
    allowed_idle_seconds: Option<u64>,
    last_keepalive: u64,
    as_of: u64,
) -> CandidateVerdict {
    let exp_future = match expiration_time {
        Some(t) => t > as_of,
        None => false,
    };
    let over: int = match allowed_idle_seconds {
        Some(a) => as_of - last_keepalive - a,
        None => 0,
    };
    if exp_future {
        CandidateVerdict::AlivePastExpiration
    } else if allowed_idle_seconds is Some && over > 0 {
        CandidateVerdict::IdleOverage(over as u64)
    } else {
        CandidateVerdict::Candidate
    }
}

/// Re-examines one termination-candidate row at `as_of`.
pub fn classify_candidate(
    expiration_time: Option<u64>,
    allowed_idle_seconds: Option<u64>,
    last_keepalive: u64,
    as_of: u64,
) -> (r: CandidateVerdict)
    ensures
        r == candidate_verdict_spec(expiration_time, allowed_idle_seconds, last_keepalive, as_of),
{
    let exp_future = match expiration_time {
        Some(t) => t > as_of,
        None => false,
    };
    if exp_future {
        return CandidateVerdict::AlivePastExpiration;
    }
    match allowed_idle_seconds {
        Some(a) => {
            if as_of > last_keepalive && as_of - last_keepalive > a {
                CandidateVerdict::IdleOverage(as_of - last_keepalive - a)
            } else {
                CandidateVerdict::Candidate
            }
        },
        None => CandidateVerdict::Candidate,
    }
}

/// Which optional components a drone process should start, given which
/// pieces of its configuration are present.
#[derive(Clone, Copy, PartialEq, Eq, Structural, Debug)]
pub struct PlanComponents {
    pub cert: bool,
    pub proxy: bool,
    pub agent: bool,
    pub nats: bool,
}

/// The configuration combinations a drone plan rejects.
#[derive(Clone, Copy, PartialEq, Eq, Structural, Debug)]
pub enum PlanError {
    /// Certificate refresh is configured but no key/cert paths are.
    CertWithoutKeyPaths,
    /// Certificate refresh is configured but no bus connection is.
    CertWithoutNats,
    /// The agent is configured but no bus connection is.
    AgentWithoutNats,
}

/// Decides which components a drone runs from its configuration flags.
/// Certificate refresh needs key paths and a bus connection; the agent
/// needs the bus connection; the proxy stands alone.
pub fn plan_components(
    has_nats: bool,
    has_acme: bool,
    has_cert_paths: bool,
    has_proxy: bool,
    has_agent: bool,
) -> (r: Result<PlanComponents, PlanError>)
    ensures
        match r {
            Result::Ok(p) => {
                &&& !(has_acme && !has_cert_paths)
                &&& !(has_acme && !has_nats)
                &&& !(has_agent && !has_nats)
                &&& p.cert == has_acme
                &&& p.proxy == has_proxy
                &&& p.agent == has_agent
                &&& p.nats == has_nats
            },
            Result::Err(e) => match e {
                PlanError::CertWithoutKeyPaths => has_acme && !has_cert_paths,
                PlanError::CertWithoutNats => has_acme && has_cert_paths && !has_nats,
                PlanError::AgentWithoutNats => !(has_acme && (!has_cert_paths || !has_nats))
                    && has_agent && !has_nats,
            },
        },
        r is Err <==> (has_acme && (!has_cert_paths || !has_nats)) || (has_agent && !has_nats),
{
    if has_acme {
        if !has_cert_paths {
            return Err(PlanError::CertWithoutKeyPaths);
        }
        if !has_nats {
            return Err(PlanError::CertWithoutNats);
        }
    }
    if has_agent && !has_nats {
        return Err(PlanError::AgentWithoutNats);
    }
    Ok(PlanComponents { cert: has_acme, proxy: has_proxy, agent: has_agent, nats: has_nats })
}

/// The spawn configuration the command-line client sends when given only
/// an image: empty environment, default pull policy, no lifetime limit,
/// and a 500-second idle budget.
pub fn default_spawn_config(image: String) -> (r: SpawnConfig)
    ensures
        r.executable.image == image,
        r.executable.env@ == Seq::<(String, String)>::empty(),
        r.executable.pull_policy == PullPolicy::IfNotPresent,
        r.lifetime_limit_seconds is None,
        r.max_idle_seconds == Some(500u64),
{
    let env: Vec<(String, String)> = Vec::new();
    proof {
        assert(env@ =~= Seq::<(String, String)>::empty());
    }
    SpawnConfig {
        executable: crate::types::ExecutorConfig {
            image,
            env,
            pull_policy: PullPolicy::IfNotPresent,
        },
        lifetime_limit_seconds: None,
        max_idle_seconds: Some(500),
    }
}

/// The classes of client-side failure the command-line front end reports.
#[derive(Clone, Copy, PartialEq, Eq, Structural, Debug)]
pub enum ClientErrorKind {
    Http,
    Url,
    Json,
    UnexpectedStatus,
    PlaneError,
}

/// The heading shown for each class of client failure.
pub open spec fn client_error_label(k: ClientErrorKind) -> Seq<char> {
    match k {
        ClientErrorKind::Http => "HTTP error from API server"@,
        ClientErrorKind::Url => "URL error"@,
        ClientErrorKind::Json => "JSON error"@,
        ClientErrorKind::UnexpectedStatus => "Unexpected status code from API server"@,
        ClientErrorKind::PlaneError => "API returned error status"@,
    }
}

/// The heading a client failure is reported under.
pub fn client_error_heading(k: ClientErrorKind) -> (r: String)
    ensures
        r@ == client_error_label(k),
{
    match k {
        ClientErrorKind::Http => String::from_str("HTTP error from API server"),
        ClientErrorKind::Url => String::from_str("URL error"),
        ClientErrorKind::Json => String::from_str("JSON error"),
        ClientErrorKind::UnexpectedStatus => String::from_str(
            "Unexpected status code from API server",
        ),
        ClientErrorKind::PlaneError => String::from_str("API returned error status"),
    }
}

} // verus!
