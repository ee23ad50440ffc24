//! Decisions of a cluster-management layer, verified.
//!
//! The orchestrator keeps tables (`store`) and a queue of actions (`queue`). Its
//! loops turn observations into intents and actions (`planner`), and carry the
//! actions out through the runtime (`dispatch`, `runtime`, `reasons`), or place
//! workloads themselves (`scheduler`, `gossip`). `flow` states what holds of an
//! action on its way from the plan to the runtime, and `plan_laws` and
//! `dispatch_laws` what the loops do to the rows of the tables.
//!
//! The agent of a node joins a cluster (`enrol`, `control_client`) and keeps the
//! overlay network in step with the other nodes (`peers`, `overlay`).
//!
//! The rest is what these rest on: texts, addresses, documents, keys, numbers,
//! tables and orders.
pub mod address;
pub mod control_client;
pub mod dispatch;
pub mod dispatch_laws;
pub mod double;
pub mod enrol;
pub mod flow;
pub mod gossip;
pub mod json;
pub mod keys;
pub mod order;
pub mod overlay;
pub mod peers;
pub mod plan_laws;
pub mod planner;
pub mod queue;
pub mod reasons;
pub mod records;
pub mod runtime;
pub mod scheduler;
pub mod store;
pub mod table;
pub mod text;
pub mod types;
