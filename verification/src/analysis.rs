//! The risk analysis of a graph.
pub mod findings;

use vstd::prelude::*;
use crate::policy_eval::context_keys::{RequestTime, time_consistent};
use crate::edges::{node_seq, edge_views};
use crate::model::edge::Edge;
use crate::model::finding::finding_views;
use crate::model::graph::Graph;
use crate::model::report::Report;
use crate::analysis::findings::{all_findings, escalation_views, gen_all_findings};
use crate::pathfinding::{PathfindingMapper, path_views};

verus! {

/// A complete analysis report for a graph. `escalations` holds the escalation
/// answer of each principal of the graph, in order; `mapper` the escalation
/// paths that the principals are mapped onto.
pub fn gen_report(graph: &Graph, escalations: &Vec<Option<(bool, Vec<Edge>)>>, mapper: &PathfindingMapper) -> (r: Report)
    requires
        escalations@.len() == graph.nodes@.len(),
    ensures
        r.account_id@ == graph.metadata.account_id@,
        exists|n: RequestTime| time_consistent(n) && finding_views(r.findings@) == #[trigger] all_findings(node_seq(graph.nodes@), edge_views(graph.edges@), escalation_views(escalations@), path_views(mapper.paths@), n.rfc3339@, n.epoch_seconds),
{
    let findings = gen_all_findings(graph, escalations, mapper);
    Report::new(graph.metadata.account_id.as_str(), findings)
}

} // verus!
