//! The answer to an authorization query.
use vstd::prelude::*;
use std::sync::Arc;
use crate::text::{owned, join2, cat3, cat5, chars_of, string_of_range, nat_text};
use crate::model::edge::{Edge, EdgeSpec, edge_description};
use crate::model::node::Node;
use crate::edges::edge_views;
use crate::cli::colors::{painted, name_code, label_code, node_name, bold_green, bold_red, bold_white, dim, cyan, magenta, edge_label, stat};

verus! {

/// Whether a principal may call an action, and through which edges.
pub struct QueryResult {
    pub allowed: bool,
    pub edge_list: Vec<Edge>,
    pub node: Arc<Node>,
}

/// A query result by the principal's ARN and the edges' descriptions.
pub struct QueryResultData {
    pub allowed: bool,
    pub principal: String,
    pub edge_path: Vec<String>,
}

/// The part of `s` after its last `:` (all of it when it has none).
pub open spec fn after_last_colon(s: Seq<char>) -> Seq<char>
    decreases s.len(),
{
    if s.len() == 0 {
        s
    } else if s.last() == ':' {
        Seq::empty()
    } else {
        after_last_colon(s.drop_last()).push(s.last())
    }
}

/// The part of `s` after its last `:`.
pub fn after_last_colon_of(s: &str) -> (r: String)
    ensures
        r@ == after_last_colon(s@),
{
    let cs = chars_of(s);
    let mut i: usize = cs.len();
    proof {
        assert(s@.take(i as int) =~= s@);
        assert(s@.subrange(i as int, s@.len() as int) =~= Seq::<char>::empty());
        assert(after_last_colon(s@) =~= after_last_colon(s@.take(i as int)) + s@.subrange(i as int, s@.len() as int));
    }
    while i > 0
        invariant
            i <= cs@.len(),
            cs@ == s@,
            after_last_colon(s@) == after_last_colon(s@.take(i as int)) + s@.subrange(i as int, s@.len() as int),
        decreases i,
    {
        proof {
            assert(s@.take(i as int).drop_last() =~= s@.take(i - 1));
            assert(s@.take(i as int).last() == s@[i - 1]);
        }
        if cs[i - 1] == ':' {
            proof {
                assert(after_last_colon(s@.take(i as int)) =~= Seq::<char>::empty());
                assert(after_last_colon(s@) =~= s@.subrange(i as int, s@.len() as int));
            }
            return string_of_range(&cs, i, cs.len());
        }
        proof {
            assert(s@.subrange(i - 1, s@.len() as int) =~= seq![s@[i - 1]] + s@.subrange(i as int, s@.len() as int));
            assert(after_last_colon(s@.take(i as int)) == after_last_colon(s@.take(i - 1)).push(s@[i - 1]));
            assert(after_last_colon(s@) =~= after_last_colon(s@.take(i - 1)) + s@.subrange(i - 1, s@.len() as int));
        }
        i = i - 1;
    }
    proof {
        assert(s@.take(0) =~= Seq::<char>::empty());
        assert(after_last_colon(s@) =~= s@.subrange(0, s@.len() as int));
        assert(s@.subrange(0, s@.len() as int) =~= s@);
    }
    string_of_range(&cs, 0, cs.len())
}

/// One hop of a path in compact form: `source->destination[reason]`, each
/// principal by the part of its ARN after the last `:`.
pub open spec fn compact_hop(e: EdgeSpec) -> Seq<char> {
    after_last_colon(e.source) + "->"@ + after_last_colon(e.destination) + "["@ + e.short_reason + "]"@
}

/// The compact hops of a path, separated by commas.
pub open spec fn compact_path(es: Seq<EdgeSpec>) -> Seq<char>
    decreases es.len(),
{
    if es.len() == 0 {
        Seq::empty()
    } else if es.len() == 1 {
        compact_hop(es[0])
    } else {
        compact_path(es.drop_last()) + ","@ + compact_hop(es.last())
    }
}

/// One hop of a path as printed in full.
pub open spec fn hop_line(e: EdgeSpec, color: bool) -> Seq<char> {
    "    "@ + painted("36"@, after_last_colon(e.source), color) + " "@ + painted("2"@, "->"@, color) + " "@
        + painted(label_code(e.short_reason), e.short_reason, color) + " "@ + painted("35"@, after_last_colon(e.destination), color) + "\n"@
}

/// The hop lines of a path.
pub open spec fn hop_lines(es: Seq<EdgeSpec>, color: bool) -> Seq<char>
    decreases es.len(),
{
    if es.len() == 0 {
        Seq::empty()
    } else {
        hop_lines(es.drop_last(), color) + hop_line(es.last(), color)
    }
}

/// The plain-text result: who can or cannot call what, and through which principal.
pub open spec fn result_text(allowed: bool, name: Seq<char>, path: Seq<EdgeSpec>, action: Seq<char>, resource: Seq<char>) -> Seq<char> {
    if allowed {
        if path.len() == 0 {
            name + " can call "@ + action + " with resource "@ + resource + "\n"@
        } else {
            name + " can access "@ + path.last().destination + " and then call "@ + action + " with resource "@ + resource + "\n"@
        }
    } else {
        name + " cannot call "@ + action + " with resource "@ + resource + "\n"@
    }
}

/// The printed result. In compact form, one line: `ALLOW` or `DENY`, the
/// principal, the action and the resource, and for an allow through edges
/// `via` and the path. Otherwise a coloured line, and for a path a line per
/// hop and a closing line.
pub open spec fn printed_result(allowed: bool, node: Node, path: Seq<EdgeSpec>, action: Seq<char>, resource: Seq<char>, compact: bool, color: bool) -> Seq<char> {
    let sn = node.spec_searchable_name();
    if compact {
        if allowed {
            if path.len() == 0 {
                "ALLOW "@ + sn + " "@ + action + " "@ + resource + "\n"@
            } else {
                "ALLOW "@ + sn + " "@ + action + " "@ + resource + " via "@ + compact_path(path) + "\n"@
            }
        } else {
            "DENY "@ + sn + " "@ + action + " "@ + resource + "\n"@
        }
    } else {
        let name = painted(name_code(node.is_admin, node.spec_is_user()), sn, color);
        if allowed {
            if path.len() == 0 {
                "  "@ + painted("1;32"@, "ALLOW"@, color) + " "@ + name + " can call "@ + painted("1;37"@, action, color)
                    + " with "@ + painted("2"@, resource, color) + "\n"@
            } else {
                let fin = after_last_colon(path.last().destination);
                "  "@ + painted("1;32"@, "ALLOW"@, color) + " "@ + name + " can access "@ + painted("1;37"@, fin, color)
                    + " through "@ + painted("1;36"@, nat_text(path.len()), color) + " hop(s):\n"@
                    + hop_lines(path, color)
                    + "    "@ + painted("2"@, "...then"@, color) + " "@ + painted("1;37"@, fin, color) + " can call "@
                    + painted("1;37"@, action, color) + " with "@ + painted("2"@, resource, color) + "\n"@
            }
        } else {
            "  "@ + painted("1;31"@, "DENY "@, color) + " "@ + name + " cannot call "@ + painted("2"@, action, color)
                + " with "@ + painted("2"@, resource, color) + "\n"@
        }
    }
}

fn compact_hop_text(e: &Edge) -> (r: String)
    ensures
        r@ == compact_hop(e@),
{
    let src = after_last_colon_of(e.source.as_str());
    let dst = after_last_colon_of(e.destination.as_str());
    let a = cat5(src.as_str(), "->", dst.as_str(), "[", e.short_reason.as_str());
    join2(a.as_str(), "]")
}

fn hop_line_text(e: &Edge, color: bool) -> (r: String)
    ensures
        r@ == hop_line(e@, color),
{
    let src = after_last_colon_of(e.source.as_str());
    let dst = after_last_colon_of(e.destination.as_str());
    let mut out = String::new();
    append(&mut out, "    ");
    append(&mut out, cyan(src.as_str(), color).as_str());
    append(&mut out, " ");
    append(&mut out, dim("->", color).as_str());
    append(&mut out, " ");
    append(&mut out, edge_label(e.short_reason.as_str(), color).as_str());
    append(&mut out, " ");
    append(&mut out, magenta(dst.as_str(), color).as_str());
    append(&mut out, "\n");
    proof {
        assert(out@ =~= hop_line(e@, color));
    }
    out
}

fn append(s: &mut String, t: &str)
    ensures
        final(s)@ == old(s)@ + t@,
{
    s.append(t);
}

impl QueryResult {
    pub fn new_allowed(node: Arc<Node>, edge_list: Vec<Edge>) -> (r: QueryResult)
        ensures
            r.allowed,
            r.edge_list == edge_list,
            r.node == node,
    {
        QueryResult { allowed: true, edge_list, node }
    }

    pub fn new_denied(node: Arc<Node>) -> (r: QueryResult)
        ensures
            !r.allowed,
            r.edge_list@.len() == 0,
            r.node == node,
    {
        QueryResult { allowed: false, edge_list: Vec::new(), node }
    }

    /// The result as plain text, ending with a newline.
    pub fn write_result(&self, action: &str, resource: &str) -> (r: String)
        ensures
            r@ == result_text(self.allowed, (*self.node).spec_searchable_name(), edge_views(self.edge_list@), action@, resource@),
    {
        let sn = self.node.searchable_name();
        let mut out = String::new();
        if self.allowed {
            if self.edge_list.len() == 0 {
                append(&mut out, sn.as_str());
                append(&mut out, " can call ");
                append(&mut out, action);
                append(&mut out, " with resource ");
                append(&mut out, resource);
                append(&mut out, "\n");
            } else {
                let last = self.edge_list.len() - 1;
                append(&mut out, sn.as_str());
                append(&mut out, " can access ");
                append(&mut out, self.edge_list[last].destination.as_str());
                append(&mut out, " and then call ");
                append(&mut out, action);
                append(&mut out, " with resource ");
                append(&mut out, resource);
                append(&mut out, "\n");
            }
        } else {
            append(&mut out, sn.as_str());
            append(&mut out, " cannot call ");
            append(&mut out, action);
            append(&mut out, " with resource ");
            append(&mut out, resource);
            append(&mut out, "\n");
        }
        proof {
            assert(out@ =~= result_text(self.allowed, (*self.node).spec_searchable_name(), edge_views(self.edge_list@), action@, resource@));
        }
        out
    }

    /// The result as printed to a terminal: compact, or coloured when `color` holds.
    pub fn print_text(&self, action: &str, resource: &str, compact: bool, color: bool) -> (r: String)
        ensures
            r@ == printed_result(self.allowed, *self.node, edge_views(self.edge_list@), action@, resource@, compact, color),
    {
        let ghost path = edge_views(self.edge_list@);
        let sn = self.node.searchable_name();
        let mut out = String::new();
        if compact {
            if self.allowed {
                append(&mut out, "ALLOW ");
            } else {
                append(&mut out, "DENY ");
            }
            append(&mut out, sn.as_str());
            append(&mut out, " ");
            append(&mut out, action);
            append(&mut out, " ");
            append(&mut out, resource);
            if self.allowed && self.edge_list.len() > 0 {
                append(&mut out, " via ");
                let mut i: usize = 0;
                let ghost before = out@;
                while i < self.edge_list.len()
                    invariant
                        i <= self.edge_list@.len(),
                        path == edge_views(self.edge_list@),
                        out@ == before + compact_path(path.take(i as int)),
                    decreases self.edge_list@.len() - i,
                {
                    if i > 0 {
                        append(&mut out, ",");
                    }
                    let e = &self.edge_list[i];
                    append(&mut out, compact_hop_text(e).as_str());
                    proof {
                        assert(path.take(i + 1).drop_last() =~= path.take(i as int));
                        assert(path.take(i + 1).last() == e@);
                        if i == 0 {
                            assert(path.take(1) =~= seq![e@]);
                            assert(path.take(0) =~= Seq::<EdgeSpec>::empty());
                        }
                        assert(out@ =~= before + compact_path(path.take(i + 1)));
                    }
                    i = i + 1;
                }
                proof {
                    assert(path.take(i as int) =~= path);
                }
            }
            append(&mut out, "\n");
            proof {
                assert(out@ =~= printed_result(self.allowed, *self.node, path, action@, resource@, compact, color));
            }
            return out;
        }
        let name = node_name(sn.as_str(), self.node.is_admin, self.node.is_user(), color);
        if self.allowed {
            if self.edge_list.len() == 0 {
                append(&mut out, "  ");
                append(&mut out, bold_green("ALLOW", color).as_str());
                append(&mut out, " ");
                append(&mut out, name.as_str());
                append(&mut out, " can call ");
                append(&mut out, bold_white(action, color).as_str());
                append(&mut out, " with ");
                append(&mut out, dim(resource, color).as_str());
                append(&mut out, "\n");
            } else {
                let last = self.edge_list.len() - 1;
                let fin = after_last_colon_of(self.edge_list[last].destination.as_str());
                append(&mut out, "  ");
                append(&mut out, bold_green("ALLOW", color).as_str());
                append(&mut out, " ");
                append(&mut out, name.as_str());
                append(&mut out, " can access ");
                append(&mut out, bold_white(fin.as_str(), color).as_str());
                append(&mut out, " through ");
                append(&mut out, stat(self.edge_list.len(), color).as_str());
                append(&mut out, " hop(s):\n");
                let ghost before = out@;
                let mut i: usize = 0;
                proof {
                    assert(path.take(0) =~= Seq::<EdgeSpec>::empty());
                    assert(before + hop_lines(path.take(0), color) =~= before);
                }
                while i < self.edge_list.len()
                    invariant
                        i <= self.edge_list@.len(),
                        path == edge_views(self.edge_list@),
                        out@ == before + hop_lines(path.take(i as int), color),
                    decreases self.edge_list@.len() - i,
                {
                    let e = &self.edge_list[i];
                    append(&mut out, hop_line_text(e, color).as_str());
                    proof {
                        assert(path.take(i + 1).drop_last() =~= path.take(i as int));
                        assert(path.take(i + 1).last() == e@);
                        assert(out@ =~= before + hop_lines(path.take(i + 1), color));
                    }
                    i = i + 1;
                }
                proof {
                    assert(path.take(i as int) =~= path);
                }
                append(&mut out, "    ");
                append(&mut out, dim("...then", color).as_str());
                append(&mut out, " ");
                append(&mut out, bold_white(fin.as_str(), color).as_str());
                append(&mut out, " can call ");
                append(&mut out, bold_white(action, color).as_str());
                append(&mut out, " with ");
                append(&mut out, dim(resource, color).as_str());
                append(&mut out, "\n");
            }
        } else {
            append(&mut out, "  ");
            append(&mut out, bold_red("DENY ", color).as_str());
            append(&mut out, " ");
            append(&mut out, name.as_str());
            append(&mut out, " cannot call ");
            append(&mut out, dim(action, color).as_str());
            append(&mut out, " with ");
            append(&mut out, dim(resource, color).as_str());
            append(&mut out, "\n");
        }
        proof {
            assert(out@ =~= printed_result(self.allowed, *self.node, path, action@, resource@, compact, color));
        }
        out
    }

    /// The result with the principal's ARN and each edge's description.
    pub fn to_data(&self) -> (r: QueryResultData)
        ensures
            r.allowed == self.allowed,
            r.principal@ == (*self.node).arn@,
            crate::ci_map::strings_view(r.edge_path@) == edge_views(self.edge_list@).map_values(|e: EdgeSpec| edge_description(e)),
    {
        let ghost es = edge_views(self.edge_list@);
        let mut path: Vec<String> = Vec::new();
        let mut i: usize = 0;
        while i < self.edge_list.len()
            invariant
                i <= self.edge_list@.len(),
                es == edge_views(self.edge_list@),
                crate::ci_map::strings_view(path@) == es.take(i as int).map_values(|e: EdgeSpec| edge_description(e)),
            decreases self.edge_list@.len() - i,
        {
            let ghost prev = path@;
            path.push(self.edge_list[i].describe());
            proof {
                assert(crate::ci_map::strings_view(path@) =~= crate::ci_map::strings_view(prev).push(edge_description(es[i as int])));
                assert(es.take(i + 1).map_values(|e: EdgeSpec| edge_description(e))
                    =~= es.take(i as int).map_values(|e: EdgeSpec| edge_description(e)).push(edge_description(es[i as int])));
            }
            i = i + 1;
        }
        proof {
            assert(es.take(i as int) =~= es);
        }
        QueryResultData { allowed: self.allowed, principal: self.node.arn.clone(), edge_path: path }
    }
}

} // verus!
