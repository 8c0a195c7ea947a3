//! Core of a fleet orchestrator: clients connect with an optional
//! idempotency key and are routed to an existing healthy backend bound to
//! that key, or a new backend is scheduled on an eligible drone. The state
//! machine for backend status, the key-lock exclusivity protocol, drone
//! placement and drain, and the idle/expiration reclamation sweep all live
//! here, each with a contract.

pub mod connect;
pub mod describe;
pub mod events;
pub mod lifecycle;
pub mod nodes;
pub mod state;
pub mod text;
pub mod types;
pub mod watchdog;
