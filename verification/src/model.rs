//! The principal graph: policies, groups, principals, edges and findings.
pub mod policy;
pub mod group;
pub mod node;
pub mod edge;
pub mod finding;
pub mod graph;
pub mod query_result;
pub mod report;
pub mod org_tree;
