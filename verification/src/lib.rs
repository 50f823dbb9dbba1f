//! IAM privilege-escalation analysis: policy evaluation, principal graph
//! modelling and escalation-edge discovery for AWS IAM.
pub mod text;
pub mod json;
pub mod ci_map;
pub mod decimal;
pub mod arns;
pub mod policy_eval;
pub mod edges;
pub mod gathering;
pub mod model;
pub mod error;
pub mod cli;
pub mod analysis;
pub mod pathfinding;
