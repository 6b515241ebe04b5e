//! Verified core of a Tor relay world-map dashboard: the relay data model,
//! text matching on relay fields, spatial clustering, network statistics
//! and the fetch state machine.

pub mod text;
pub mod relay;
pub mod cluster;
pub mod fetch;
pub mod map_plugin;
pub mod dashboard;
