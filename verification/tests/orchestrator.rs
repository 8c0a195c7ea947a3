use plane::state::Controller;
use plane::types::{
    BackendStatus, ConnectError, ConnectRequest, KeyConfig, NodeStatus, PullPolicy, SpawnConfig,
};
use plane::describe::default_spawn_config;
use plane::watchdog::TerminateKind;

fn spawn_config(image: &str) -> SpawnConfig {
    default_spawn_config(image.to_string())
}

fn keyed_request(key: &str, tag: &str, image: Option<&str>) -> ConnectRequest {
    ConnectRequest {
        key: Some(KeyConfig { name: key.to_string(), tag: tag.to_string() }),
        spawn_config: image.map(spawn_config),
    }
}

/// A controller with one Available drone in cluster "c1"; returns the
/// controller and the drone id.
fn one_drone_controller() -> (Controller, u64) {
    let mut c = Controller::new(None, 60);
    let d = c.register_drone(
        "c1".to_string(),
        "drone-a".to_string(),
        None,
        "1.0".to_string(),
        "abc".to_string(),
        10,
    );
    assert!(c.heartbeat(d, 20));
    (c, d)
}

#[test]
fn connect_no_drone_available_rolls_back() {
    // no drones at all: a keyed connect fails and leaves no lock row and
    // no backend row behind
    let mut c = Controller::new(None, 60);
    let cluster = "c1".to_string();
    let r = c.connect(Some(&cluster), keyed_request("u1", "t1", Some("img")), 30);
    assert_eq!(r, Err(ConnectError::NoDroneAvailable));
    assert_eq!(c.locks.len(), 0);
    assert_eq!(c.backends.len(), 0);
}

#[test]
fn connect_starving_after_drain_rolls_back() {
    // the only drone is drained: same rollback
    let (mut c, d) = one_drone_controller();
    assert!(c.drain_drone(d, 25));
    let cluster = "c1".to_string();
    let r = c.connect(Some(&cluster), keyed_request("u1", "t1", Some("img")), 30);
    assert_eq!(r, Err(ConnectError::NoDroneAvailable));
    assert_eq!(c.locks.len(), 0);
    assert_eq!(c.backends.len(), 0);
}

#[test]
fn connect_is_idempotent_for_same_key_and_tag() {
    let (mut c, d) = one_drone_controller();
    let cluster = "c1".to_string();
    let r1 = c.connect(Some(&cluster), keyed_request("u1", "t1", Some("img")), 30).unwrap();
    assert!(r1.spawned);
    assert_eq!(r1.drone, Some(d));
    let r2 = c.connect(Some(&cluster), keyed_request("u1", "t1", Some("img")), 31).unwrap();
    assert_eq!(r2.backend_id, r1.backend_id);
    assert!(!r2.spawned, "no second spawn may be dispatched");
    assert_eq!(c.backends.len(), 1, "exactly one backend row is created");
    assert_eq!(c.locks.len(), 1);
}

#[test]
fn connect_unspecified_tag_matches_any_holder() {
    let (mut c, _) = one_drone_controller();
    let cluster = "c1".to_string();
    let r1 = c.connect(Some(&cluster), keyed_request("u1", "t1", Some("img")), 30).unwrap();
    let r2 = c.connect(Some(&cluster), keyed_request("u1", "", None), 31).unwrap();
    assert_eq!(r2.backend_id, r1.backend_id);
    assert!(!r2.spawned);
}

#[test]
fn connect_tag_mismatch_reports_existing_tag() {
    let (mut c, _) = one_drone_controller();
    let cluster = "c1".to_string();
    let r1 = c.connect(Some(&cluster), keyed_request("u1", "t1", Some("img")), 30).unwrap();
    // drive the holder to Ready, then ask for the same key under another tag
    assert!(c.apply_status_report(r1.backend_id, BackendStatus::Starting, 31));
    assert!(c.apply_status_report(r1.backend_id, BackendStatus::Ready, 32));
    let r2 = c.connect(Some(&cluster), keyed_request("u1", "t2", Some("img")), 33);
    assert_eq!(r2, Err(ConnectError::KeyHeld { tag: "t1".to_string() }));
    assert_eq!(c.backends.len(), 1);
}

#[test]
fn connect_unhealthy_holder_is_reported() {
    let (mut c, _) = one_drone_controller();
    let cluster = "c1".to_string();
    let r1 = c.connect(Some(&cluster), keyed_request("u1", "t1", Some("img")), 30).unwrap();
    assert!(c.apply_status_report(r1.backend_id, BackendStatus::Ready, 31));
    assert!(c.terminate_backend(r1.backend_id, false, 32));
    let r2 = c.connect(Some(&cluster), keyed_request("u1", "t1", Some("img")), 33);
    assert_eq!(r2, Err(ConnectError::KeyHeldUnhealthy));
}

#[test]
fn connect_requires_cluster() {
    let mut c = Controller::new(None, 60);
    let r = c.connect(None, keyed_request("u1", "t1", Some("img")), 30);
    assert_eq!(r, Err(ConnectError::NoClusterProvided));
}

#[test]
fn connect_uses_default_cluster() {
    let mut c = Controller::new(Some("c1".to_string()), 60);
    let d = c.register_drone(
        "c1".to_string(),
        "drone-a".to_string(),
        None,
        "1.0".to_string(),
        "abc".to_string(),
        10,
    );
    assert!(c.heartbeat(d, 20));
    let r = c.connect(None, keyed_request("u1", "t1", Some("img")), 30).unwrap();
    assert!(r.spawned);
}

#[test]
fn connect_fresh_key_needs_spawn_config() {
    let (mut c, _) = one_drone_controller();
    let cluster = "c1".to_string();
    let r = c.connect(Some(&cluster), keyed_request("u1", "t1", None), 30);
    assert_eq!(r, Err(ConnectError::KeyUnheldNoSpawnConfig));
    let r2 = c.connect(
        Some(&cluster),
        ConnectRequest { key: None, spawn_config: None },
        30,
    );
    assert_eq!(r2, Err(ConnectError::KeyUnheldNoSpawnConfig));
}

#[test]
fn terminated_holder_frees_the_key() {
    let (mut c, _) = one_drone_controller();
    let cluster = "c1".to_string();
    let r1 = c.connect(Some(&cluster), keyed_request("u1", "t1", Some("img")), 30).unwrap();
    assert_eq!(c.locks.len(), 1);
    assert!(c.apply_status_report(r1.backend_id, BackendStatus::Ready, 31));
    assert!(c.terminate_backend(r1.backend_id, false, 32));
    assert!(c.apply_status_report(r1.backend_id, BackendStatus::Terminated, 33));
    // the lock is released as part of the terminal transition
    assert_eq!(c.locks.len(), 0);
    // the key can be reacquired, by a new backend
    let r2 = c.connect(Some(&cluster), keyed_request("u1", "t9", Some("img")), 34).unwrap();
    assert!(r2.spawned);
    assert_ne!(r2.backend_id, r1.backend_id);
}

#[test]
fn status_reports_are_monotonic() {
    let (mut c, _) = one_drone_controller();
    let cluster = "c1".to_string();
    let r = c.connect(Some(&cluster), keyed_request("u1", "t1", Some("img")), 30).unwrap();
    let b = r.backend_id;
    assert!(c.apply_status_report(b, BackendStatus::Ready, 31));
    // a duplicate is a no-op
    assert!(!c.apply_status_report(b, BackendStatus::Ready, 32));
    // an out-of-order earlier status is a no-op
    assert!(!c.apply_status_report(b, BackendStatus::Starting, 33));
    assert_eq!(c.backends[0].status, BackendStatus::Ready);
    assert_eq!(c.backends[0].last_status_time, 31);
}

#[test]
fn report_order_converges() {
    // two controllers fed the same reports in different orders, with a
    // duplicate, end in the same state
    let (mut c1, _) = one_drone_controller();
    let (mut c2, _) = one_drone_controller();
    let cluster = "c1".to_string();
    let b1 = c1.connect(Some(&cluster), keyed_request("u1", "t1", Some("img")), 30).unwrap().backend_id;
    let b2 = c2.connect(Some(&cluster), keyed_request("u1", "t1", Some("img")), 30).unwrap().backend_id;
    c1.apply_status_report(b1, BackendStatus::Starting, 31);
    c1.apply_status_report(b1, BackendStatus::Ready, 32);
    c2.apply_status_report(b2, BackendStatus::Ready, 31);
    c2.apply_status_report(b2, BackendStatus::Starting, 32);
    c2.apply_status_report(b2, BackendStatus::Ready, 33);
    assert_eq!(c1.backends[0].status, c2.backends[0].status);
    assert_eq!(c1.backends[0].status, BackendStatus::Ready);
}

#[test]
fn report_for_unknown_backend_is_ignored() {
    let (mut c, _) = one_drone_controller();
    assert!(!c.apply_status_report(999, BackendStatus::Ready, 31));
    assert_eq!(c.events.len(), 2); // registration and first heartbeat only
}

#[test]
fn placement_prefers_least_loaded_drone() {
    let (mut c, d1) = one_drone_controller();
    let d2 = c.register_drone(
        "c1".to_string(),
        "drone-b".to_string(),
        None,
        "1.0".to_string(),
        "abc".to_string(),
        10,
    );
    assert!(c.heartbeat(d2, 20));
    let cluster = "c1".to_string();
    // ids tie-break: both empty, the smaller id wins
    let r1 = c.connect(Some(&cluster), ConnectRequest { key: None, spawn_config: Some(spawn_config("img")) }, 30).unwrap();
    assert_eq!(r1.drone, Some(d1.min(d2)));
    // now the other drone is emptier
    let r2 = c.connect(Some(&cluster), ConnectRequest { key: None, spawn_config: Some(spawn_config("img")) }, 31).unwrap();
    assert_eq!(r2.drone, Some(d1.max(d2)));
}

#[test]
fn drained_drone_is_excluded_but_keeps_its_backends() {
    let (mut c, d1) = one_drone_controller();
    let cluster = "c1".to_string();
    let r1 = c.connect(Some(&cluster), keyed_request("u1", "t1", Some("img")), 30).unwrap();
    assert_eq!(r1.drone, Some(d1));
    let d2 = c.register_drone(
        "c1".to_string(),
        "drone-b".to_string(),
        None,
        "1.0".to_string(),
        "abc".to_string(),
        31,
    );
    assert!(c.heartbeat(d2, 32));
    assert!(c.drain_drone(d1, 33));
    // d1 is emptier-loaded? no: d1 carries one backend; either way it may
    // never be chosen again
    let r2 = c.connect(Some(&cluster), keyed_request("u2", "t1", Some("img")), 34).unwrap();
    assert_eq!(r2.drone, Some(d2));
    // and d1's existing backend is untouched
    assert_eq!(c.backends[0].drone, d1);
    assert_eq!(c.backends[0].status, BackendStatus::Scheduled);
}

#[test]
fn stale_drone_is_not_eligible() {
    let (mut c, d) = one_drone_controller();
    let cluster = "c1".to_string();
    // heartbeat was at 20, timeout 60: at 81 the drone is stale
    let r = c.connect(Some(&cluster), keyed_request("u1", "t1", Some("img")), 81);
    assert_eq!(r, Err(ConnectError::NoDroneAvailable));
    // exactly at the window edge it is still eligible
    let r2 = c.connect(Some(&cluster), keyed_request("u1", "t1", Some("img")), 80).unwrap();
    assert_eq!(r2.drone, Some(d));
}

#[test]
fn expired_drone_stays_terminated() {
    let (mut c, d) = one_drone_controller();
    assert_eq!(c.stale_drones(81), vec![d]);
    assert_eq!(c.stale_drones(80), Vec::<u64>::new());
    assert!(c.expire_drone(d, 81));
    assert_eq!(c.drones[0].status, NodeStatus::Terminated);
    // fail-stop: a late heartbeat does not revive it
    assert!(!c.heartbeat(d, 82));
    assert_eq!(c.drones[0].status, NodeStatus::Terminated);
}

#[test]
fn register_is_idempotent_per_cluster_and_name() {
    let (mut c, d) = one_drone_controller();
    let again = c.register_drone(
        "c1".to_string(),
        "drone-a".to_string(),
        None,
        "1.0".to_string(),
        "abc".to_string(),
        50,
    );
    assert_eq!(again, d);
    assert_eq!(c.drones.len(), 1);
}

#[test]
fn idle_boundary_is_strict() {
    let (mut c, _) = one_drone_controller();
    let cluster = "c1".to_string();
    let mut req = keyed_request("u1", "t1", Some("img"));
    if let Some(s) = req.spawn_config.as_mut() {
        s.max_idle_seconds = Some(10);
    }
    let b = c.connect(Some(&cluster), req, 30).unwrap().backend_id;
    // last_keepalive is 30; exactly at the budget it is not yet a candidate
    assert_eq!(c.termination_candidates(40), Vec::<u64>::new());
    // one second past the budget it is
    assert_eq!(c.termination_candidates(41), vec![b]);
}

#[test]
fn expiration_boundary_is_strict() {
    let (mut c, _) = one_drone_controller();
    let cluster = "c1".to_string();
    let mut req = keyed_request("u1", "t1", Some("img"));
    if let Some(s) = req.spawn_config.as_mut() {
        s.lifetime_limit_seconds = Some(15);
        s.max_idle_seconds = None;
    }
    let b = c.connect(Some(&cluster), req, 30).unwrap().backend_id;
    // expiration_time is 45: candidate only strictly past it
    assert_eq!(c.termination_candidates(45), Vec::<u64>::new());
    assert_eq!(c.termination_candidates(46), vec![b]);
}

#[test]
fn keepalive_resets_the_idle_clock() {
    let (mut c, _) = one_drone_controller();
    let cluster = "c1".to_string();
    let mut req = keyed_request("u1", "t1", Some("img"));
    if let Some(s) = req.spawn_config.as_mut() {
        s.max_idle_seconds = Some(10);
    }
    let b = c.connect(Some(&cluster), req, 30).unwrap().backend_id;
    assert_eq!(c.termination_candidates(41), vec![b]);
    assert!(c.record_keepalive(b, 41));
    assert_eq!(c.termination_candidates(41), Vec::<u64>::new());
}

#[test]
fn sweep_soft_terminates_and_escalates() {
    let (mut c, _) = one_drone_controller();
    let cluster = "c1".to_string();
    let mut req = keyed_request("u1", "t1", Some("img"));
    if let Some(s) = req.spawn_config.as_mut() {
        s.max_idle_seconds = Some(10);
    }
    let b = c.connect(Some(&cluster), req, 30).unwrap().backend_id;
    let actions = c.sweep_actions(50, Some(5));
    assert_eq!(actions, vec![(b, TerminateKind::Soft)]);
    assert!(c.terminate_backend(b, false, 50));
    assert_eq!(c.backends[0].status, BackendStatus::Terminating);
    // within the grace deadline: nothing more to do
    assert_eq!(c.sweep_actions(55, Some(5)), Vec::<(u64, TerminateKind)>::new());
    // past it: escalate to hard
    assert_eq!(c.sweep_actions(56, Some(5)), vec![(b, TerminateKind::Hard)]);
    // with no deadline configured, nothing escalates
    assert_eq!(c.sweep_actions(56, None), Vec::<(u64, TerminateKind)>::new());
    assert!(c.terminate_backend(b, true, 56));
    assert_eq!(c.backends[0].status, BackendStatus::HardTerminating);
}

#[test]
fn release_key_removes_only_the_lock() {
    let (mut c, _) = one_drone_controller();
    let cluster = "c1".to_string();
    let key = "u1".to_string();
    c.connect(Some(&cluster), keyed_request("u1", "t1", Some("img")), 30).unwrap();
    assert!(c.release_key(&cluster, &key, 31));
    assert_eq!(c.locks.len(), 0);
    assert_eq!(c.backends.len(), 1);
    assert!(!c.release_key(&cluster, &key, 32));
}

#[test]
fn events_are_scoped_per_backend() {
    let (mut c, _) = one_drone_controller();
    let cluster = "c1".to_string();
    let b = c.connect(Some(&cluster), keyed_request("u1", "t1", Some("img")), 30).unwrap().backend_id;
    c.apply_status_report(b, BackendStatus::Starting, 31);
    let scoped = c.events_for(b);
    assert_eq!(scoped.len(), 2); // scheduled + status change
    assert!(scoped.iter().all(|e| e.key == Some(b)));
    // drone registration and heartbeat events are global, not scoped
    assert!(c.events.len() > scoped.len());
}

#[test]
fn clusters_are_isolated() {
    // the only drone lives in c1: a connect against c2 finds nothing,
    // and a key bound in c1 does not shadow the same key name in c2
    let (mut c, _) = one_drone_controller();
    let c1 = "c1".to_string();
    let c2 = "c2".to_string();
    let r1 = c.connect(Some(&c1), keyed_request("u1", "t1", Some("img")), 30).unwrap();
    let r2 = c.connect(Some(&c2), keyed_request("u1", "t1", Some("img")), 31);
    assert_eq!(r2, Err(ConnectError::NoDroneAvailable));
    let d2 = c.register_drone(
        "c2".to_string(),
        "drone-c".to_string(),
        None,
        "1.0".to_string(),
        "abc".to_string(),
        32,
    );
    assert!(c.heartbeat(d2, 33));
    let r3 = c.connect(Some(&c2), keyed_request("u1", "t1", Some("img")), 34).unwrap();
    assert!(r3.spawned, "same key name in another cluster is a fresh key");
    assert_ne!(r3.backend_id, r1.backend_id);
}

#[test]
fn stored_empty_tag_conflicts_with_a_specified_tag() {
    let (mut c, _) = one_drone_controller();
    let cluster = "c1".to_string();
    c.connect(Some(&cluster), keyed_request("u1", "", Some("img")), 30).unwrap();
    let r = c.connect(Some(&cluster), keyed_request("u1", "t2", Some("img")), 31);
    assert_eq!(r, Err(ConnectError::KeyHeld { tag: String::new() }));
}

#[test]
fn default_spawn_config_matches_cli_defaults() {
    let s = spawn_config("img");
    assert_eq!(s.executable.image, "img");
    assert!(s.executable.env.is_empty());
    assert_eq!(s.executable.pull_policy, PullPolicy::IfNotPresent);
    assert_eq!(s.lifetime_limit_seconds, None);
    assert_eq!(s.max_idle_seconds, Some(500));
}
