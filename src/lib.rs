//! Supervision of MQTT relay connections: reconnection backoff, the per-relay
//! worker state machine, the table of running workers and the routing of
//! publish requests to them.

pub mod backoff;
pub mod ingress;
pub mod order;
pub mod settings;
pub mod table;
pub mod worker;
