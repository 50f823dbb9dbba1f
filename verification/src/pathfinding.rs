//! Maps the permissions of principals to known privilege-escalation paths of
//! the pathfinding.cloud catalogue.
use vstd::prelude::*;
use crate::text::{owned, str_eq, cat3, joined, join_strings};
use crate::model::finding::{Finding, FindingSpec, Severity, finding_views};
use crate::cli::completer::list_has;
use crate::ci_map::{CaseInsensitiveMap, strings_view};
use crate::model::graph::Graph;
use crate::model::node::{Node, copy_strings};
use crate::edges::node_seq;
use crate::policy_eval::authorization::{local_decision, local_check_authorization_at};
use crate::policy_eval::context_keys::{RequestTime, current_time, prepared_context, user_pairs, time_consistent};

verus! {

/// The kind of an escalation path.
#[derive(Debug, Clone, Copy, PartialEq, Eq, Structural)]
pub enum EscalationCategory {
    SelfEscalation,
    PrincipalAccess,
    NewPassrole,
    ExistingPassrole,
    CredentialAccess,
}

/// A known escalation path: what it is and the permissions it needs.
pub struct EscalationPath {
    pub id: String,
    pub name: String,
    pub category: EscalationCategory,
    pub description: String,
    pub recommendation: String,
    pub permissions: Vec<String>,
    pub services: Vec<String>,
}

/// The content of an escalation path.
pub struct EscalationPathSpec {
    pub id: Seq<char>,
    pub name: Seq<char>,
    pub category: EscalationCategory,
    pub description: Seq<char>,
    pub recommendation: Seq<char>,
    pub permissions: Seq<Seq<char>>,
    pub services: Seq<Seq<char>>,
}

impl View for EscalationPath {
    type V = EscalationPathSpec;

    open spec fn view(&self) -> EscalationPathSpec {
        EscalationPathSpec {
            id: self.id@,
            name: self.name@,
            category: self.category,
            description: self.description@,
            recommendation: self.recommendation@,
            permissions: strings_view(self.permissions@),
            services: strings_view(self.services@),
        }
    }
}

impl EscalationPath {
    /// A copy of the path.
    pub fn copy(&self) -> (r: EscalationPath)
        ensures
            r@ == self@,
    {
        EscalationPath {
            id: owned(self.id.as_str()),
            name: owned(self.name.as_str()),
            category: self.category,
            description: owned(self.description.as_str()),
            recommendation: owned(self.recommendation.as_str()),
            permissions: copy_strings(&self.permissions),
            services: copy_strings(&self.services),
        }
    }
}

/// Result of mapping a principal's permissions against the catalogue
pub struct PathMatch {
    pub path: EscalationPath,
    pub node_arn: String,
    pub node_name: String,
    /// Which required permissions the principal actually has
    pub matched_permissions: Vec<String>,
    /// Whether ALL required permissions are present (full match)
    pub full_match: bool,
}

/// The content of a match.
pub struct PathMatchSpec {
    pub path: EscalationPathSpec,
    pub node_arn: Seq<char>,
    pub node_name: Seq<char>,
    pub matched_permissions: Seq<Seq<char>>,
    pub full_match: bool,
}

impl View for PathMatch {
    type V = PathMatchSpec;

    open spec fn view(&self) -> PathMatchSpec {
        PathMatchSpec {
            path: self.path@,
            node_arn: self.node_arn@,
            node_name: self.node_name@,
            matched_permissions: strings_view(self.matched_permissions@),
            full_match: self.full_match,
        }
    }
}

/// The contents of a list of matches.
pub open spec fn match_views(v: Seq<PathMatch>) -> Seq<PathMatchSpec> {
    Seq::new(v.len(), |i: int| v[i]@)
}

/// The contents of a list of paths.
pub open spec fn path_views(v: Seq<EscalationPath>) -> Seq<EscalationPathSpec> {
    Seq::new(v.len(), |i: int| v[i]@)
}

/// The principal may perform `perm` on `*` in the plain context at time `t`.
pub open spec fn permitted(n: Node, perm: Seq<char>, t: Seq<char>, e: i64) -> bool {
    local_decision(n, perm, "*"@, prepared_context(n, Seq::empty(), t, e))
}

/// The principal may perform every one of the permissions.
pub open spec fn all_permitted(n: Node, perms: Seq<Seq<char>>, t: Seq<char>, e: i64) -> bool {
    forall|k: int| 0 <= k < perms.len() ==> #[trigger] permitted(n, perms[k], t, e)
}

/// The path has at least one permission, and the principal may perform each.
pub open spec fn qualifies(p: EscalationPathSpec, n: Node, t: Seq<char>, e: i64) -> bool {
    p.permissions.len() > 0 && all_permitted(n, p.permissions, t, e)
}

/// The full match of principal `n` against path `p`.
pub open spec fn path_match(p: EscalationPathSpec, n: Node) -> PathMatchSpec {
    PathMatchSpec {
        path: p,
        node_arn: n.arn@,
        node_name: n.spec_searchable_name(),
        matched_permissions: p.permissions,
        full_match: true,
    }
}

/// The paths of the catalogue that qualify for `n`, in catalogue order.
pub open spec fn qualifying(paths: Seq<EscalationPathSpec>, n: Node, t: Seq<char>, e: i64) -> Seq<EscalationPathSpec>
    decreases paths.len(),
{
    if paths.len() == 0 {
        Seq::empty()
    } else {
        let rest = qualifying(paths.drop_last(), n, t, e);
        if qualifies(paths.last(), n, t, e) { rest.push(paths.last()) } else { rest }
    }
}

/// The paths with at least one permission, each of which the principal may
/// perform, as matches, in catalogue order.
pub open spec fn node_matches(paths: Seq<EscalationPathSpec>, n: Node, t: Seq<char>, e: i64) -> Seq<PathMatchSpec>
    decreases paths.len(),
{
    if paths.len() == 0 {
        Seq::empty()
    } else {
        let rest = node_matches(paths.drop_last(), n, t, e);
        let p = paths.last();
        if qualifies(p, n, t, e) { rest.push(path_match(p, n)) } else { rest }
    }
}

/// The matches of every non-admin principal, principal by principal.
pub open spec fn graph_matches(paths: Seq<EscalationPathSpec>, ns: Seq<Node>, t: Seq<char>, e: i64) -> Seq<PathMatchSpec>
    decreases ns.len(),
{
    if ns.len() == 0 {
        Seq::empty()
    } else {
        let rest = graph_matches(paths, ns.drop_last(), t, e);
        if ns.last().is_admin { rest } else { rest + node_matches(paths, ns.last(), t, e) }
    }
}

/// Maps graph principals to the escalation paths of a catalogue.
pub struct PathfindingMapper {
    pub paths: Vec<EscalationPath>,
}

impl PathfindingMapper {
    pub fn new(paths: Vec<EscalationPath>) -> (r: PathfindingMapper)
        ensures
            r.paths == paths,
    {
        PathfindingMapper { paths }
    }

    /// The number of paths in the catalogue.
    pub fn path_count(&self) -> (r: usize)
        ensures
            r == self.paths@.len(),
    {
        self.paths.len()
    }

    /// The permissions of a path that the principal may perform, in order, and
    /// whether it may perform all of them.
    fn permitted_of(n: &Node, perms: &Vec<String>, ctx: &CaseInsensitiveMap, now: &RequestTime) -> (r: (Vec<String>, bool))
        requires
            user_pairs(*ctx) == Seq::<(Seq<char>, Seq<char>)>::empty(),
        ensures
            r.1 == all_permitted(*n, strings_view(perms@), now.rfc3339@, now.epoch_seconds),
            r.1 ==> strings_view(r.0@) == strings_view(perms@),
    {
        let ghost pv = strings_view(perms@);
        let mut matched: Vec<String> = Vec::new();
        let mut all_match = true;
        let mut k: usize = 0;
        while k < perms.len()
            invariant
                k <= perms@.len(),
                pv == strings_view(perms@),
                user_pairs(*ctx) == Seq::<(Seq<char>, Seq<char>)>::empty(),
                all_match == (forall|j: int| 0 <= j < k ==> #[trigger] permitted(*n, pv[j], now.rfc3339@, now.epoch_seconds)),
                all_match ==> strings_view(matched@) == pv.take(k as int),
            decreases perms@.len() - k,
        {
            let ghost before = strings_view(matched@);
            proof {
                assert(pv[k as int] == perms@[k as int]@);
            }
            let ok = local_check_authorization_at(n, perms[k].as_str(), "*", ctx, now);
            proof {
                assert(ok == permitted(*n, pv[k as int], now.rfc3339@, now.epoch_seconds));
            }
            if ok {
                matched.push(owned(perms[k].as_str()));
                proof {
                    assert(strings_view(matched@) =~= before.push(pv[k as int]));
                    assert(pv.take(k + 1) =~= pv.take(k as int).push(pv[k as int]));
                }
            } else {
                all_match = false;
            }
            k = k + 1;
        }
        proof {
            assert(pv.take(k as int) =~= pv);
        }
        (matched, all_match)
    }

    /// The paths whose permissions the principal all has, with the checks made at time `now`.
    pub fn check_node_at(&self, node: &Node, now: &RequestTime) -> (r: Vec<PathMatch>)
        ensures
            match_views(r@) == node_matches(path_views(self.paths@), *node, now.rfc3339@, now.epoch_seconds),
    {
        let ghost ps = path_views(self.paths@);
        let ctx = CaseInsensitiveMap::new();
        proof {
            assert(user_pairs(ctx) =~= Seq::<(Seq<char>, Seq<char>)>::empty());
        }
        let mut matches: Vec<PathMatch> = Vec::new();
        let mut i: usize = 0;
        proof {
            assert(ps.take(0) =~= Seq::<EscalationPathSpec>::empty());
            assert(match_views(matches@) =~= node_matches(ps.take(0), *node, now.rfc3339@, now.epoch_seconds));
        }
        while i < self.paths.len()
            invariant
                i <= self.paths@.len(),
                ps == path_views(self.paths@),
                user_pairs(ctx) == Seq::<(Seq<char>, Seq<char>)>::empty(),
                match_views(matches@) == node_matches(ps.take(i as int), *node, now.rfc3339@, now.epoch_seconds),
            decreases self.paths@.len() - i,
        {
            let path = &self.paths[i];
            proof {
                assert(ps[i as int] == path@);
                assert(ps.take(i + 1).drop_last() =~= ps.take(i as int));
                assert(ps.take(i + 1).last() == path@);
            }
            if path.permissions.len() != 0 {
                let (matched, all_match) = Self::permitted_of(node, &path.permissions, &ctx, now);
                if all_match && matched.len() != 0 {
                    let ghost before = match_views(matches@);
                    let m = PathMatch {
                        path: path.copy(),
                        node_arn: owned(node.arn.as_str()),
                        node_name: node.searchable_name(),
                        matched_permissions: matched,
                        full_match: true,
                    };
                    matches.push(m);
                    proof {
                        assert(match_views(matches@) =~= before.push(m@));
                    }
                }
            }
            i = i + 1;
        }
        proof {
            assert(ps.take(i as int) =~= ps);
        }
        matches
    }

    /// The paths whose permissions the principal all has, checked at the present moment.
    pub fn check_node(&self, node: &Node) -> (r: Vec<PathMatch>)
        ensures
            exists|n: RequestTime| time_consistent(n) && match_views(r@) == #[trigger] node_matches(path_views(self.paths@), *node, n.rfc3339@, n.epoch_seconds),
    {
        let now = current_time();
        self.check_node_at(node, &now)
    }

    /// The matches of every non-admin principal of the graph, with the checks made at time `now`.
    pub fn check_graph_at(&self, graph: &Graph, now: &RequestTime) -> (r: Vec<PathMatch>)
        ensures
            match_views(r@) == graph_matches(path_views(self.paths@), node_seq(graph.nodes@), now.rfc3339@, now.epoch_seconds),
    {
        let ghost ns = node_seq(graph.nodes@);
        let ghost ps = path_views(self.paths@);
        let mut all: Vec<PathMatch> = Vec::new();
        let mut i: usize = 0;
        proof {
            assert(ns.take(0) =~= Seq::<Node>::empty());
            assert(match_views(all@) =~= graph_matches(ps, ns.take(0), now.rfc3339@, now.epoch_seconds));
        }
        while i < graph.nodes.len()
            invariant
                i <= graph.nodes@.len(),
                ns == node_seq(graph.nodes@),
                ps == path_views(self.paths@),
                match_views(all@) == graph_matches(ps, ns.take(i as int), now.rfc3339@, now.epoch_seconds),
            decreases graph.nodes@.len() - i,
        {
            let n: &crate::model::node::Node = &graph.nodes[i];
            proof {
                assert(ns[i as int] == *n);
                assert(ns.take(i + 1).drop_last() =~= ns.take(i as int));
                assert(ns.take(i + 1).last() == *n);
            }
            if !n.is_admin {
                let more = self.check_node_at(n, now);
                let ghost before = match_views(all@);
                let ghost mv = match_views(more@);
                let mut rest = more;
                let m = rest.len();
                let mut j: usize = 0;
                proof {
                    assert(match_views(all@) =~= before + mv.take(0));
                }
                while j < m
                    invariant
                        j <= m,
                        m == mv.len(),
                        rest@.len() == m - j,
                        forall|k: int| 0 <= k < rest@.len() ==> rest@[k]@ == mv[k + j],
                        match_views(all@) == before + mv.take(j as int),
                    decreases m - j,
                {
                    let x = rest.remove(0);
                    let ghost b2 = match_views(all@);
                    all.push(x);
                    proof {
                        assert(match_views(all@) =~= b2.push(mv[j as int]));
                        assert(mv.take(j + 1) =~= mv.take(j as int).push(mv[j as int]));
                    }
                    j = j + 1;
                }
                proof {
                    assert(mv.take(m as int) =~= mv);
                }
            }
            i = i + 1;
        }
        proof {
            assert(ns.take(i as int) =~= ns);
        }
        all
    }

    /// The matches of every non-admin principal of the graph, checked at the present moment.
    pub fn check_graph(&self, graph: &Graph) -> (r: Vec<PathMatch>)
        ensures
            exists|n: RequestTime| time_consistent(n) && match_views(r@) == #[trigger] graph_matches(path_views(self.paths@), node_seq(graph.nodes@), n.rfc3339@, n.epoch_seconds),
    {
        let now = current_time();
        self.check_graph_at(graph, &now)
    }
}


/// A full match of principal `n` against a path of the catalogue.
pub open spec fn full_match_of(paths: Seq<EscalationPathSpec>, n: Node, m: PathMatchSpec, t: Seq<char>, e: i64) -> bool {
    &&& paths.contains(m.path)
    &&& m.node_arn == n.arn@
    &&& m.node_name == n.spec_searchable_name()
    &&& m.full_match
    &&& m.path.permissions.len() > 0
    &&& m.matched_permissions == m.path.permissions
    &&& all_permitted(n, m.path.permissions, t, e)
}

proof fn lemma_node_matches(paths: Seq<EscalationPathSpec>, n: Node, t: Seq<char>, e: i64, m: PathMatchSpec)
    requires
        node_matches(paths, n, t, e).contains(m),
    ensures
        full_match_of(paths, n, m, t, e),
    decreases paths.len(),
{
    let rest = node_matches(paths.drop_last(), n, t, e);
    if rest.contains(m) {
        lemma_node_matches(paths.drop_last(), n, t, e, m);
        let k = choose|k: int| 0 <= k < paths.drop_last().len() && paths.drop_last()[k] == m.path;
        assert(paths[k] == m.path);
    } else {
        let p = paths.last();
        let ms = node_matches(paths, n, t, e);
        let k = choose|k: int| 0 <= k < ms.len() && ms[k] == m;
        if k < rest.len() {
            assert(rest[k] == m);
        }
        assert(paths[paths.len() - 1] == m.path);
    }
}

/// Every match of a graph is a full match of a non-admin principal of the graph
/// against a path of the catalogue: the path has permissions, the principal may
/// perform each of them, and they are all listed as matched.
pub proof fn law_graph_matches_are_full(paths: Seq<EscalationPathSpec>, ns: Seq<Node>, t: Seq<char>, e: i64, m: PathMatchSpec)
    requires
        graph_matches(paths, ns, t, e).contains(m),
    ensures
        exists|i: int| 0 <= i < ns.len() && !ns[i].is_admin && #[trigger] full_match_of(paths, ns[i], m, t, e),
    decreases ns.len(),
{
    let rest = graph_matches(paths, ns.drop_last(), t, e);
    let n = ns.last();
    if rest.contains(m) {
        law_graph_matches_are_full(paths, ns.drop_last(), t, e, m);
        let i = choose|i: int| 0 <= i < ns.drop_last().len() && !ns.drop_last()[i].is_admin && #[trigger] full_match_of(paths, ns.drop_last()[i], m, t, e);
        assert(ns[i] == ns.drop_last()[i]);
    } else {
        let nm = node_matches(paths, n, t, e);
        let all = rest + nm;
        let k = choose|k: int| 0 <= k < all.len() && all[k] == m;
        if k < rest.len() {
            assert(rest[k] == m);
        }
        assert(nm[k - rest.len()] == m);
        lemma_node_matches(paths, n, t, e, m);
        assert(ns[ns.len() - 1] == n);
    }
}


/// A principal's matches are, in catalogue order, exactly the full matches
/// against the paths that have permissions and whose permissions it may all
/// perform: one match per such path, naming the principal, listing all the
/// path's permissions as matched.
pub proof fn law_check_node_paths(paths: Seq<EscalationPathSpec>, n: Node, t: Seq<char>, e: i64, p: EscalationPathSpec)
    ensures
        node_matches(paths, n, t, e) == qualifying(paths, n, t, e).map_values(|q: EscalationPathSpec| path_match(q, n)),
        qualifying(paths, n, t, e).contains(p) <==> (paths.contains(p) && qualifies(p, n, t, e)),
    decreases paths.len(),
{
    if paths.len() > 0 {
        let pl = paths.drop_last();
        law_check_node_paths(pl, n, t, e, p);
        let rest = qualifying(pl, n, t, e);
        assert(node_matches(paths, n, t, e) =~= qualifying(paths, n, t, e).map_values(|q: EscalationPathSpec| path_match(q, n)));
        if qualifying(paths, n, t, e).contains(p) {
            let k = choose|k: int| 0 <= k < qualifying(paths, n, t, e).len() && qualifying(paths, n, t, e)[k] == p;
            if k < rest.len() {
                assert(rest[k] == p);
                assert(rest.contains(p));
                let j = choose|j: int| 0 <= j < pl.len() && pl[j] == p;
                assert(paths[j] == p);
            } else {
                assert(paths[paths.len() - 1] == p);
            }
        }
        if paths.contains(p) && qualifies(p, n, t, e) {
            let j = choose|j: int| 0 <= j < paths.len() && paths[j] == p;
            if j < pl.len() {
                assert(pl[j] == p);
                assert(pl.contains(p));
                let k = choose|k: int| 0 <= k < rest.len() && rest[k] == p;
                assert(qualifying(paths, n, t, e)[k] == p);
            } else {
                assert(qualifying(paths, n, t, e)[qualifying(paths, n, t, e).len() - 1] == p);
            }
        }
    } else {
        assert(node_matches(paths, n, t, e) =~= qualifying(paths, n, t, e).map_values(|q: EscalationPathSpec| path_match(q, n)));
    }
}


// ---------------------------------------------------------------------------
// Findings

/// The catalogue's name of a category.
pub open spec fn category_text(c: EscalationCategory) -> Seq<char> {
    match c {
        EscalationCategory::SelfEscalation => "self-escalation"@,
        EscalationCategory::PrincipalAccess => "principal-access"@,
        EscalationCategory::NewPassrole => "new-passrole"@,
        EscalationCategory::ExistingPassrole => "existing-passrole"@,
        EscalationCategory::CredentialAccess => "credential-access"@,
    }
}

/// The catalogue's name of a category.
pub fn category_name(c: EscalationCategory) -> (r: &'static str)
    ensures
        r@ == category_text(c),
{
    match c {
        EscalationCategory::SelfEscalation => "self-escalation",
        EscalationCategory::PrincipalAccess => "principal-access",
        EscalationCategory::NewPassrole => "new-passrole",
        EscalationCategory::ExistingPassrole => "existing-passrole",
        EscalationCategory::CredentialAccess => "credential-access",
    }
}

/// The page of a path on pathfinding.cloud.
pub open spec fn path_url(id: Seq<char>) -> Seq<char> {
    "https://pathfinding.cloud/paths/"@ + id
}

impl EscalationPath {
    /// The page of the path on pathfinding.cloud.
    pub fn url(&self) -> (r: String)
        ensures
            r@ == path_url(self.id@),
    {
        let r = cat3("https://pathfinding.cloud/paths/", self.id.as_str(), "");
        proof {
            reveal_strlit("");
            assert(r@ =~= path_url(self.id@));
        }
        r
    }
}

/// How severe a path of a category is: paths that escalate at once are high,
/// those through existing roles or credentials medium.
pub open spec fn category_severity(c: EscalationCategory) -> Severity {
    match c {
        EscalationCategory::SelfEscalation => Severity::High,
        EscalationCategory::PrincipalAccess => Severity::High,
        EscalationCategory::NewPassrole => Severity::High,
        EscalationCategory::ExistingPassrole => Severity::Medium,
        EscalationCategory::CredentialAccess => Severity::Medium,
    }
}

/// The finding for a match, the principal named `name`.
pub open spec fn pathfinding_finding(name: Seq<char>, m: PathMatchSpec) -> FindingSpec {
    let p = m.path;
    let perms = joined(m.matched_permissions, ", "@);
    let url = path_url(p.id);
    FindingSpec {
        title: "["@ + p.id + "] "@ + name + " — "@ + p.name,
        severity: category_severity(p.category),
        impact: name + " has permissions for privilege escalation path "@ + p.id + " ("@ + category_text(p.category) + ")"@,
        description: p.description + "\n\nMatched permissions: "@ + perms + "\n\nPathfinding.cloud: "@ + url,
        recommendation: if p.recommendation.len() == 0 {
            "Restrict access to: "@ + perms + ". See "@ + url + " for details."@
        } else {
            p.recommendation + "\n\nRef: "@ + url
        },
    }
}

/// The principals of the matches, by ARN, in order of first appearance.
pub open spec fn match_arns(ms: Seq<PathMatchSpec>) -> Seq<Seq<char>>
    decreases ms.len(),
{
    if ms.len() == 0 {
        Seq::empty()
    } else {
        let r = match_arns(ms.drop_last());
        if r.contains(ms.last().node_arn) { r } else { r.push(ms.last().node_arn) }
    }
}

/// The matches of the principal with ARN `a`, in order.
pub open spec fn matches_for(ms: Seq<PathMatchSpec>, a: Seq<char>) -> Seq<PathMatchSpec>
    decreases ms.len(),
{
    if ms.len() == 0 {
        Seq::empty()
    } else {
        let r = matches_for(ms.drop_last(), a);
        if ms.last().node_arn == a { r.push(ms.last()) } else { r }
    }
}

/// The findings of one principal's matches, each naming the principal as its
/// first match does.
pub open spec fn group_findings(g: Seq<PathMatchSpec>) -> Seq<FindingSpec> {
    Seq::new(g.len(), |k: int| pathfinding_finding(g[0].node_name, g[k]))
}

/// The findings of the matches of the principals `arns`, principal by principal.
pub open spec fn findings_over(ms: Seq<PathMatchSpec>, arns: Seq<Seq<char>>) -> Seq<FindingSpec>
    decreases arns.len(),
{
    if arns.len() == 0 {
        Seq::empty()
    } else {
        findings_over(ms, arns.drop_last()) + group_findings(matches_for(ms, arns.last()))
    }
}

/// One finding per match, the matches taken principal by principal (in order
/// of each principal's first match), each principal named as its first match names it.
pub open spec fn pathfinding_findings(ms: Seq<PathMatchSpec>) -> Seq<FindingSpec> {
    findings_over(ms, match_arns(ms))
}

fn pathfinding_finding_exec(name: &str, m: &PathMatch) -> (r: Finding)
    ensures
        r@ == pathfinding_finding(name@, m@),
{
    let p = &m.path;
    let perms = join_strings(&m.matched_permissions, ", ");
    proof {
        assert(Seq::new(m.matched_permissions@.len(), |i: int| m.matched_permissions@[i]@) =~= strings_view(m.matched_permissions@));
    }
    let url = p.url();
    let title = cat3("[", p.id.as_str(), "] ");
    let title = cat3(title.as_str(), name, " — ");
    let title = cat3(title.as_str(), p.name.as_str(), "");
    let impact = cat3(name, " has permissions for privilege escalation path ", p.id.as_str());
    let impact = cat3(impact.as_str(), " (", category_name(p.category));
    let impact = cat3(impact.as_str(), ")", "");
    let description = cat3(p.description.as_str(), "\n\nMatched permissions: ", perms.as_str());
    let description = cat3(description.as_str(), "\n\nPathfinding.cloud: ", url.as_str());
    proof {
        reveal_strlit("");
    }
    let recommendation = if str_eq(p.recommendation.as_str(), "") {
        let r = cat3("Restrict access to: ", perms.as_str(), ". See ");
        cat3(r.as_str(), url.as_str(), " for details.")
    } else {
        let r = cat3(p.recommendation.as_str(), "\n\nRef: ", url.as_str());
        proof {
            if p.recommendation@.len() == 0 {
                assert(p.recommendation@ =~= ""@);
            }
        }
        r
    };
    let severity = match p.category {
        EscalationCategory::SelfEscalation => Severity::High,
        EscalationCategory::PrincipalAccess => Severity::High,
        EscalationCategory::NewPassrole => Severity::High,
        EscalationCategory::ExistingPassrole => Severity::Medium,
        EscalationCategory::CredentialAccess => Severity::Medium,
    };
    let f = Finding::new(title.as_str(), severity, impact.as_str(), description.as_str(), recommendation.as_str());
    proof {
        let spec = pathfinding_finding(name@, m@);
        assert(f@.title =~= spec.title);
        assert(f@.impact =~= spec.impact);
        assert(f@.description =~= spec.description);
        assert(f@.recommendation =~= spec.recommendation);
    }
    f
}

/// The principals of the matches, by ARN, in order of first appearance.
pub fn principal_arns(ms: &Vec<PathMatch>) -> (r: Vec<String>)
    ensures
        strings_view(r@) == match_arns(match_views(ms@)),
{
    let ghost mv = match_views(ms@);
    let mut out: Vec<String> = Vec::new();
    let mut i: usize = 0;
    proof {
        assert(mv.take(0) =~= Seq::<PathMatchSpec>::empty());
    }
    while i < ms.len()
        invariant
            i <= ms@.len(),
            mv == match_views(ms@),
            strings_view(out@) == match_arns(mv.take(i as int)),
        decreases ms@.len() - i,
    {
        proof {
            assert(mv.take(i + 1).drop_last() =~= mv.take(i as int));
            assert(mv.take(i + 1).last() == ms@[i as int]@);
        }
        let ghost before = strings_view(out@);
        if !list_has(&out, ms[i].node_arn.as_str()) {
            out.push(owned(ms[i].node_arn.as_str()));
            proof {
                assert(strings_view(out@) =~= before.push(ms@[i as int].node_arn@));
            }
        }
        i = i + 1;
    }
    proof {
        assert(mv.take(i as int) =~= mv);
    }
    out
}

/// One finding per match: the matches are taken principal by principal, in the
/// order in which each principal first appears, and every finding of a
/// principal names it as its first match does. Its severity follows the
/// path's category; it describes the path, the permissions matched and the
/// path's page.
pub fn gen_pathfinding_findings(ms: &Vec<PathMatch>) -> (r: Vec<Finding>)
    ensures
        finding_views(r@) == pathfinding_findings(match_views(ms@)),
{
    let ghost mv = match_views(ms@);
    let arns = principal_arns(ms);
    let ghost av = strings_view(arns@);
    let mut findings: Vec<Finding> = Vec::new();
    let mut j: usize = 0;
    proof {
        assert(av.take(0) =~= Seq::<Seq<char>>::empty());
        assert(finding_views(findings@) =~= findings_over(mv, av.take(0)));
    }
    while j < arns.len()
        invariant
            j <= arns@.len(),
            mv == match_views(ms@),
            av == strings_view(arns@),
            finding_views(findings@) == findings_over(mv, av.take(j as int)),
        decreases arns@.len() - j,
    {
        let a = arns[j].as_str();
        let ghost base = finding_views(findings@);
        let mut first: Option<String> = None;
        let mut k: usize = 0;
        proof {
            assert(mv.take(0) =~= Seq::<PathMatchSpec>::empty());
            assert(finding_views(findings@) =~= base + group_findings(matches_for(mv.take(0), a@)));
        }
        while k < ms.len()
            invariant
                k <= ms@.len(),
                j < arns@.len(),
                mv == match_views(ms@),
                av == strings_view(arns@),
                a@ == av[j as int],
                base == findings_over(mv, av.take(j as int)),
                match first {
                    Some(nm) => matches_for(mv.take(k as int), a@).len() > 0 && nm@ == matches_for(mv.take(k as int), a@)[0].node_name,
                    None => matches_for(mv.take(k as int), a@).len() == 0,
                },
                finding_views(findings@) == base + group_findings(matches_for(mv.take(k as int), a@)),
            decreases ms@.len() - k,
        {
            let ghost prev = matches_for(mv.take(k as int), a@);
            let ghost before = finding_views(findings@);
            proof {
                assert(mv.take(k + 1).drop_last() =~= mv.take(k as int));
                assert(mv.take(k + 1).last() == ms@[k as int]@);
            }
            if str_eq(ms[k].node_arn.as_str(), a) {
                if first.is_none() {
                    first = Some(owned(ms[k].node_name.as_str()));
                }
                let nm = match &first {
                    Some(x) => x.as_str(),
                    None => "",
                };
                let f = pathfinding_finding_exec(nm, &ms[k]);
                findings.push(f);
                proof {
                    let cur = matches_for(mv.take(k + 1), a@);
                    assert(cur =~= prev.push(ms@[k as int]@));
                    assert(cur[0].node_name == nm@);
                    assert(finding_views(findings@) =~= before.push(f@));
                    assert(group_findings(cur) =~= group_findings(prev).push(pathfinding_finding(cur[0].node_name, ms@[k as int]@))) by {
                        if prev.len() > 0 {
                            assert(prev[0] == cur[0]);
                        }
                    }
                    assert(finding_views(findings@) =~= base + group_findings(cur));
                }
            } else {
                proof {
                    assert(matches_for(mv.take(k + 1), a@) == prev);
                }
            }
            k = k + 1;
        }
        proof {
            assert(mv.take(k as int) =~= mv);
            assert(av.take(j + 1).drop_last() =~= av.take(j as int));
            assert(av.take(j + 1).last() == a@);
        }
        j = j + 1;
    }
    proof {
        assert(av.take(j as int) =~= av);
    }
    findings
}

impl PathfindingMapper {
    /// The findings of the matches of the graph, with the checks made at time `now`.
    pub fn generate_findings_at(&self, graph: &Graph, now: &RequestTime) -> (r: Vec<Finding>)
        ensures
            finding_views(r@) == pathfinding_findings(graph_matches(path_views(self.paths@), node_seq(graph.nodes@), now.rfc3339@, now.epoch_seconds)),
    {
        let matches = self.check_graph_at(graph, now);
        gen_pathfinding_findings(&matches)
    }

    /// The findings of the matches of the graph, checked at the present moment.
    pub fn generate_findings(&self, graph: &Graph) -> (r: Vec<Finding>)
        ensures
            exists|n: RequestTime| time_consistent(n) && finding_views(r@) == #[trigger] pathfinding_findings(graph_matches(path_views(self.paths@), node_seq(graph.nodes@), n.rfc3339@, n.epoch_seconds)),
    {
        let now = current_time();
        self.generate_findings_at(graph, &now)
    }
}

} // verus!
