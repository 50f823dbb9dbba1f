//! IAM policy evaluation.
pub mod wildcard;
pub mod condition;
pub mod statement_match;
pub mod context_keys;
pub mod resource_policy;
pub mod authorization;
