//! Privilege-escalation edges between principals.
use vstd::prelude::*;
use crate::text::{owned, join2};

verus! {

/// A way for the source principal to gain the destination's access.
pub struct Edge {
    pub source: String,
    pub destination: String,
    pub reason: String,
    pub short_reason: String,
}

/// The content of an edge.
pub struct EdgeSpec {
    pub source: Seq<char>,
    pub destination: Seq<char>,
    pub reason: Seq<char>,
    pub short_reason: Seq<char>,
}

impl View for Edge {
    type V = EdgeSpec;

    open spec fn view(&self) -> EdgeSpec {
        EdgeSpec {
            source: self.source@,
            destination: self.destination@,
            reason: self.reason@,
            short_reason: self.short_reason@,
        }
    }
}

/// The text `source reason destination`.
pub open spec fn edge_description(e: EdgeSpec) -> Seq<char> {
    e.source + seq![' '] + e.reason + seq![' '] + e.destination
}

impl Edge {
    pub fn new(source: &str, destination: &str, reason: &str, short_reason: &str) -> (r: Edge)
        ensures
            r@ == (EdgeSpec { source: source@, destination: destination@, reason: reason@, short_reason: short_reason@ }),
    {
        Edge {
            source: owned(source),
            destination: owned(destination),
            reason: owned(reason),
            short_reason: owned(short_reason),
        }
    }

    /// A description: the source, the reason and the destination, separated by spaces.
    pub fn describe(&self) -> (r: String)
        ensures
            r@ == edge_description(self@),
    {
        let mut s = join2(self.source.as_str(), " ");
        s.append(self.reason.as_str());
        s.append(" ");
        s.append(self.destination.as_str());
        proof {
            reveal_strlit(" ");
        }
        s
    }

    /// A copy of the edge.
    pub fn copy(&self) -> (r: Edge)
        ensures
            r@ == self@,
    {
        Edge {
            source: self.source.clone(),
            destination: self.destination.clone(),
            reason: self.reason.clone(),
            short_reason: self.short_reason.clone(),
        }
    }
}

} // verus!
