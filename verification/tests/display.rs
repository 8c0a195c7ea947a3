use plane::describe::{
    classify_candidate, client_error_heading, connect_error_to_response, describe_drone_status,
    plan_components, ApiErrorKind, CandidateVerdict, ClientErrorKind, PlanError,
};
use plane::state::Drone;
use plane::text::{connect_url, format_duration, u64_to_string};
use plane::types::{status_at_least, BackendStatus, ConnectError, NodeStatus};

fn drone(status: NodeStatus, last_heartbeat: u64) -> Drone {
    Drone {
        id: 1,
        cluster: "c1".to_string(),
        name: "drone-a".to_string(),
        controller: None,
        plane_version: "1.0".to_string(),
        plane_hash: "abc".to_string(),
        status,
        last_heartbeat,
        drained: false,
    }
}

#[test]
fn numbers_render_in_decimal() {
    assert_eq!(u64_to_string(0), "0");
    assert_eq!(u64_to_string(7), "7");
    assert_eq!(u64_to_string(10), "10");
    assert_eq!(u64_to_string(1234567890), "1234567890");
    assert_eq!(u64_to_string(u64::MAX), "18446744073709551615");
}

#[test]
fn durations_use_the_largest_unit() {
    assert_eq!(format_duration(0), "0s");
    assert_eq!(format_duration(59), "59s");
    assert_eq!(format_duration(60), "1m");
    assert_eq!(format_duration(3599), "59m");
    assert_eq!(format_duration(3600), "1h");
    assert_eq!(format_duration(86399), "23h");
    assert_eq!(format_duration(86400), "1d");
    assert_eq!(format_duration(90061), "1d");
}

#[test]
fn connect_urls_name_backend_and_cluster() {
    assert_eq!(connect_url(&"c1".to_string(), 7), "https://7.c1/");
    assert_eq!(connect_url(&"prod".to_string(), 123), "https://123.prod/");
}

#[test]
fn drone_status_lines() {
    assert_eq!(describe_drone_status(&drone(NodeStatus::Available, 100), 160), "Available 1m ago");
    assert_eq!(describe_drone_status(&drone(NodeStatus::Starting, 100), 101), "Starting 1s ago");
    assert_eq!(
        describe_drone_status(&drone(NodeStatus::Terminated, 0), 86400),
        "Terminated 1d ago"
    );
}

#[test]
fn connect_errors_map_to_responses() {
    let r = connect_error_to_response(&ConnectError::NoClusterProvided);
    assert_eq!(r.status, 400);
    assert_eq!(r.kind, ApiErrorKind::NoClusterProvided);
    assert_eq!(r.message, "No cluster provided, and no default cluster for this controller.");

    let r = connect_error_to_response(&ConnectError::KeyHeld { tag: "t1".to_string() });
    assert_eq!(r.status, 409);
    assert_eq!(r.kind, ApiErrorKind::KeyHeld);
    assert_eq!(r.message, "Lock is held but tag does not match.");

    let r = connect_error_to_response(&ConnectError::KeyUnheldNoSpawnConfig);
    assert_eq!(r.status, 409);
    assert_eq!(r.kind, ApiErrorKind::KeyUnheldNoSpawnConfig);

    let r = connect_error_to_response(&ConnectError::NoDroneAvailable);
    assert_eq!(r.status, 500);
    assert_eq!(r.message, "No active drone available.");

    let r = connect_error_to_response(&ConnectError::KeyHeldUnhealthy);
    assert_eq!(r.status, 500);

    let r = connect_error_to_response(&ConnectError::FailedToAcquireKey);
    assert_eq!(r.status, 500);
    assert_eq!(r.message, "Failed to acquire lock.");

    let r = connect_error_to_response(&ConnectError::FailedToRemoveKey);
    assert_eq!(r.status, 409);

    let r = connect_error_to_response(&ConnectError::Other);
    assert_eq!(r.status, 500);
    assert_eq!(r.message, "Internal error.");
}

#[test]
fn candidate_verdicts() {
    // expiration still in the future wins over everything
    assert_eq!(
        classify_candidate(Some(100), Some(10), 0, 50),
        CandidateVerdict::AlivePastExpiration
    );
    // idle budget exhausted, with the overage in seconds
    assert_eq!(classify_candidate(None, Some(10), 30, 45), CandidateVerdict::IdleOverage(5));
    // neither guard fires
    assert_eq!(classify_candidate(Some(40), Some(10), 35, 45), CandidateVerdict::Candidate);
    assert_eq!(classify_candidate(None, None, 0, 1000), CandidateVerdict::Candidate);
}

#[test]
fn plan_component_decisions() {
    assert_eq!(
        plan_components(false, true, false, false, false),
        Err(PlanError::CertWithoutKeyPaths)
    );
    assert_eq!(plan_components(false, true, true, false, false), Err(PlanError::CertWithoutNats));
    assert_eq!(plan_components(false, false, false, false, true), Err(PlanError::AgentWithoutNats));
    let p = plan_components(true, true, true, true, true).unwrap();
    assert!(p.cert && p.proxy && p.agent && p.nats);
    let p = plan_components(false, false, false, true, false).unwrap();
    assert!(!p.cert && p.proxy && !p.agent && !p.nats);
}

#[test]
fn client_error_headings() {
    assert_eq!(client_error_heading(ClientErrorKind::Http), "HTTP error from API server");
    assert_eq!(client_error_heading(ClientErrorKind::Url), "URL error");
    assert_eq!(client_error_heading(ClientErrorKind::Json), "JSON error");
    assert_eq!(
        client_error_heading(ClientErrorKind::UnexpectedStatus),
        "Unexpected status code from API server"
    );
    assert_eq!(client_error_heading(ClientErrorKind::PlaneError), "API returned error status");
}

#[test]
fn status_order_drives_wait_loops() {
    assert!(status_at_least(BackendStatus::Ready, BackendStatus::Ready));
    assert!(status_at_least(BackendStatus::Terminated, BackendStatus::Ready));
    assert!(!status_at_least(BackendStatus::Starting, BackendStatus::Ready));
    assert!(status_at_least(BackendStatus::HardTerminating, BackendStatus::Terminating));
}
