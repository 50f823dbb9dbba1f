//! Escalation edges: for each ordered pair of principals, whether the first
//! can gain the second's access through some AWS service.
pub mod iam;
pub mod sts;
pub mod ec2;
pub mod ssm;
pub mod autoscaling;
pub mod sagemaker;
pub mod lambda;
pub mod codebuild;
pub mod cloudformation;
pub mod checker_laws;

use vstd::prelude::*;
use std::sync::Arc;
use crate::text::{join2, to_lowercase, unicode_lowercase, str_eq, is_ascii_text, fold};
use crate::ci_map::{CaseInsensitiveMap, ContextMap, ctx_get};
use crate::model::node::Node;
use crate::model::policy::Policy;
use crate::model::edge::{Edge, EdgeSpec};
use crate::policy_eval::resource_policy::{service_trusted, service_can_assume_role};
use crate::policy_eval::authorization::{mfa_outcome, scps_view, local_check_authorization_handling_mfa_at};
use crate::policy_eval::context_keys::{RequestTime, user_pairs, current_time, time_consistent};
use crate::edges::lambda::{LambdaFunction, lambda_pair, lambda_pair_edges, lambda_dest_ok, lambda_dest_check};
use crate::edges::codebuild::{CodeBuildProject, codebuild_pair, codebuild_pair_edges, codebuild_dest_ok, codebuild_dest_check};
use crate::edges::cloudformation::{CfnStack, cloudformation_pair, cloudformation_pair_edges, cloudformation_dest_ok, cloudformation_dest_check};

verus! {

/// The edge checkers.
#[derive(Debug, Clone, Copy, PartialEq, Eq, Hash, Structural)]
pub enum CheckerKind {
    Iam,
    Sts,
    Lambda,
    Ec2,
    CodeBuild,
    CloudFormation,
    AutoScaling,
    Ssm,
    SageMaker,
}

/// The name of a checker.
pub open spec fn checker_name(k: CheckerKind) -> Seq<char> {
    match k {
        CheckerKind::Iam => "iam"@,
        CheckerKind::Sts => "sts"@,
        CheckerKind::Lambda => "lambda"@,
        CheckerKind::Ec2 => "ec2"@,
        CheckerKind::CodeBuild => "codebuild"@,
        CheckerKind::CloudFormation => "cloudformation"@,
        CheckerKind::AutoScaling => "autoscaling"@,
        CheckerKind::Ssm => "ssm"@,
        CheckerKind::SageMaker => "sagemaker"@,
    }
}

/// Every checker, in the order they run by default.
pub open spec fn all_checkers() -> Seq<CheckerKind> {
    seq![
        CheckerKind::Iam,
        CheckerKind::Sts,
        CheckerKind::Lambda,
        CheckerKind::Ec2,
        CheckerKind::CodeBuild,
        CheckerKind::CloudFormation,
        CheckerKind::AutoScaling,
        CheckerKind::Ssm,
        CheckerKind::SageMaker,
    ]
}

/// The checker whose name is `l`.
pub open spec fn checker_of_lower(l: Seq<char>) -> Option<CheckerKind> {
    if l == "iam"@ {
        Some(CheckerKind::Iam)
    } else if l == "sts"@ {
        Some(CheckerKind::Sts)
    } else if l == "lambda"@ {
        Some(CheckerKind::Lambda)
    } else if l == "ec2"@ {
        Some(CheckerKind::Ec2)
    } else if l == "codebuild"@ {
        Some(CheckerKind::CodeBuild)
    } else if l == "cloudformation"@ {
        Some(CheckerKind::CloudFormation)
    } else if l == "autoscaling"@ {
        Some(CheckerKind::AutoScaling)
    } else if l == "ssm"@ {
        Some(CheckerKind::Ssm)
    } else if l == "sagemaker"@ {
        Some(CheckerKind::SageMaker)
    } else {
        None
    }
}

/// The checker named `name` (compared after lower-casing it).
pub open spec fn checker_named(name: Seq<char>) -> Option<CheckerKind> {
    checker_of_lower(unicode_lowercase(name))
}

/// Every checker is found again by its name, in any ASCII letter case, and is
/// listed among all checkers; an ASCII name that lower-cases to none of the
/// checkers' names names no checker.
pub proof fn law_from_name_round_trip(k: CheckerKind, s: Seq<char>)
    ensures
        all_checkers().contains(k),
        checker_of_lower(fold(checker_name(k))) == Some(k),
        fold(s) == checker_name(k) ==> checker_of_lower(fold(s)) == Some(k),
        (forall|j: CheckerKind| fold(s) != #[trigger] checker_name(j)) ==> checker_of_lower(fold(s)) is None,
{
    reveal_strlit("iam");
    reveal_strlit("sts");
    reveal_strlit("lambda");
    reveal_strlit("ec2");
    reveal_strlit("codebuild");
    reveal_strlit("cloudformation");
    reveal_strlit("autoscaling");
    reveal_strlit("ssm");
    reveal_strlit("sagemaker");
    assert(fold(checker_name(k)) =~= checker_name(k));
    assert("iam"@.len() == 3 && "iam"@[0] == 'i' && "iam"@[1] == 'a');
    assert("sts"@.len() == 3 && "sts"@[0] == 's' && "sts"@[1] == 't');
    assert("lambda"@.len() == 6 && "lambda"@[0] == 'l' && "lambda"@[1] == 'a');
    assert("ec2"@.len() == 3 && "ec2"@[0] == 'e' && "ec2"@[1] == 'c');
    assert("codebuild"@.len() == 9 && "codebuild"@[0] == 'c' && "codebuild"@[1] == 'o');
    assert("cloudformation"@.len() == 14 && "cloudformation"@[0] == 'c' && "cloudformation"@[1] == 'l');
    assert("autoscaling"@.len() == 11 && "autoscaling"@[0] == 'a' && "autoscaling"@[1] == 'u');
    assert("ssm"@.len() == 3 && "ssm"@[0] == 's' && "ssm"@[1] == 's');
    assert("sagemaker"@.len() == 9 && "sagemaker"@[0] == 's' && "sagemaker"@[1] == 'a');
    let ks = all_checkers();
    match k {
        CheckerKind::Iam => assert(ks[0] == k),
        CheckerKind::Sts => assert(ks[1] == k),
        CheckerKind::Lambda => assert(ks[2] == k),
        CheckerKind::Ec2 => assert(ks[3] == k),
        CheckerKind::CodeBuild => assert(ks[4] == k),
        CheckerKind::CloudFormation => assert(ks[5] == k),
        CheckerKind::AutoScaling => assert(ks[6] == k),
        CheckerKind::Ssm => assert(ks[7] == k),
        CheckerKind::SageMaker => assert(ks[8] == k),
    }
    if forall|j: CheckerKind| fold(s) != #[trigger] checker_name(j) {
        assert(fold(s) != checker_name(CheckerKind::Iam));
        assert(fold(s) != checker_name(CheckerKind::Sts));
        assert(fold(s) != checker_name(CheckerKind::Lambda));
        assert(fold(s) != checker_name(CheckerKind::Ec2));
        assert(fold(s) != checker_name(CheckerKind::CodeBuild));
        assert(fold(s) != checker_name(CheckerKind::CloudFormation));
        assert(fold(s) != checker_name(CheckerKind::AutoScaling));
        assert(fold(s) != checker_name(CheckerKind::Ssm));
        assert(fold(s) != checker_name(CheckerKind::SageMaker));
    }
}

impl CheckerKind {
    /// Every checker.
    pub fn all() -> (r: Vec<CheckerKind>)
        ensures
            r@ == all_checkers(),
    {
        let r = vec![
            CheckerKind::Iam,
            CheckerKind::Sts,
            CheckerKind::Lambda,
            CheckerKind::Ec2,
            CheckerKind::CodeBuild,
            CheckerKind::CloudFormation,
            CheckerKind::AutoScaling,
            CheckerKind::Ssm,
            CheckerKind::SageMaker,
        ];
        proof {
            assert(r@ =~= all_checkers());
        }
        r
    }

    /// The checker with the given name, in any letter case.
    pub fn from_name(name: &str) -> (r: Option<CheckerKind>)
        ensures
            r == checker_named(name@),
            is_ascii_text(name@) ==> r == checker_of_lower(fold(name@)),
    {
        let l = to_lowercase(name);
        let s = l.as_str();
        if str_eq(s, "iam") {
            Some(CheckerKind::Iam)
        } else if str_eq(s, "sts") {
            Some(CheckerKind::Sts)
        } else if str_eq(s, "lambda") {
            Some(CheckerKind::Lambda)
        } else if str_eq(s, "ec2") {
            Some(CheckerKind::Ec2)
        } else if str_eq(s, "codebuild") {
            Some(CheckerKind::CodeBuild)
        } else if str_eq(s, "cloudformation") {
            Some(CheckerKind::CloudFormation)
        } else if str_eq(s, "autoscaling") {
            Some(CheckerKind::AutoScaling)
        } else if str_eq(s, "ssm") {
            Some(CheckerKind::Ssm)
        } else if str_eq(s, "sagemaker") {
            Some(CheckerKind::SageMaker)
        } else {
            None
        }
    }

    /// The checker's name.
    pub fn name(&self) -> (r: &'static str)
        ensures
            r@ == checker_name(*self),
    {
        match self {
            CheckerKind::Iam => "iam",
            CheckerKind::Sts => "sts",
            CheckerKind::Lambda => "lambda",
            CheckerKind::Ec2 => "ec2",
            CheckerKind::CodeBuild => "codebuild",
            CheckerKind::CloudFormation => "cloudformation",
            CheckerKind::AutoScaling => "autoscaling",
            CheckerKind::Ssm => "ssm",
            CheckerKind::SageMaker => "sagemaker",
        }
    }
}

/// The principals held by a list of shared principals.
pub open spec fn node_seq(nodes: Seq<Arc<Node>>) -> Seq<Node> {
    nodes.map_values(|a: Arc<Node>| *a)
}

/// The contents of a list of edges.
pub open spec fn edge_views(v: Seq<Edge>) -> Seq<EdgeSpec> {
    v.map_values(|e: Edge| e@)
}

/// The edges found for `outer` against each of `inners`, in order.
pub open spec fn row(outer: Node, inners: Seq<Node>, f: spec_fn(Node, Node) -> Seq<EdgeSpec>) -> Seq<EdgeSpec>
    decreases inners.len(),
{
    if inners.len() == 0 {
        Seq::empty()
    } else {
        row(outer, inners.drop_last(), f) + f(outer, inners.last())
    }
}

/// The edges found for each of `outers` against each of `inners`, outer by outer.
pub open spec fn grid(outers: Seq<Node>, inners: Seq<Node>, f: spec_fn(Node, Node) -> Seq<EdgeSpec>) -> Seq<EdgeSpec>
    decreases outers.len(),
{
    if outers.len() == 0 {
        Seq::empty()
    } else {
        grid(outers.drop_last(), inners, f) + row(outers.last(), inners, f)
    }
}

/// A row is empty when every pair of it is.
pub proof fn lemma_row_empty(outer: Node, inners: Seq<Node>, f: spec_fn(Node, Node) -> Seq<EdgeSpec>)
    requires
        forall|i: int| 0 <= i < inners.len() ==> f(outer, #[trigger] inners[i]).len() == 0,
    ensures
        row(outer, inners, f) == Seq::<EdgeSpec>::empty(),
    decreases inners.len(),
{
    if inners.len() > 0 {
        lemma_row_empty(outer, inners.drop_last(), f);
        assert(f(outer, inners[inners.len() - 1]).len() == 0);
        assert(row(outer, inners, f) =~= Seq::<EdgeSpec>::empty());
    }
}

/// The suffix that marks an edge needing MFA.
pub open spec fn mfa_suffix(mfa: bool) -> Seq<char> {
    if mfa {
        " (MFA required)"@
    } else {
        Seq::empty()
    }
}

/// An edge from `src` to `dst`.
pub open spec fn edge_of(src: Node, dst: Node, reason: Seq<char>, short: Seq<char>) -> EdgeSpec {
    EdgeSpec { source: src.arn@, destination: dst.arn@, reason, short_reason: short }
}

/// The condition keys of a pass-role check for a service.
pub open spec fn passed_to(service: Seq<char>) -> Seq<(Seq<char>, Seq<char>)> {
    seq![("iam:PassedToService"@, service)]
}

/// The caller's keys of a check without any.
pub open spec fn no_keys() -> Seq<(Seq<char>, Seq<char>)> {
    Seq::empty()
}

/// Whether `src` may perform `action` on `resource` (first component) and
/// needs MFA for it (second component), with the SCP groups `sv` and time `(t, e)`.
pub open spec fn may(src: Node, action: Seq<char>, resource: Seq<char>, up: Seq<(Seq<char>, Seq<char>)>, sv: Option<Seq<Seq<Policy>>>, t: Seq<char>, e: i64) -> (bool, bool) {
    mfa_outcome(src, action, resource, up, sv, t, e)
}

/// The data the checkers read besides the principals.
pub struct ServiceResources {
    pub functions: Seq<LambdaFunction>,
    pub projects: Seq<CodeBuildProject>,
    pub stacks: Seq<CfnStack>,
}

/// Whether the destination of a checker passes the checks made once per
/// destination (always for the IAM checker, whose outer loop is over sources).
pub open spec fn dest_ok(kind: CheckerKind, dst: Node, sv: Option<Seq<Seq<Policy>>>, t: Seq<char>, e: i64) -> bool {
    match kind {
        CheckerKind::Iam => true,
        CheckerKind::Sts => crate::edges::sts::sts_dest_ok(dst),
        CheckerKind::Ec2 => crate::edges::ec2::ec2_dest_ok(dst),
        CheckerKind::Ssm => crate::edges::ssm::ssm_dest_ok(dst, t, e),
        CheckerKind::AutoScaling => crate::edges::autoscaling::autoscaling_dest_ok(dst),
        CheckerKind::SageMaker => crate::edges::sagemaker::sagemaker_dest_ok(dst),
        CheckerKind::Lambda => lambda_dest_ok(dst),
        CheckerKind::CodeBuild => codebuild_dest_ok(dst),
        CheckerKind::CloudFormation => cloudformation_dest_ok(dst),
    }
}

/// The edges a checker finds for one pair: `outer` is the source for the
/// IAM checker and the destination for every other.
pub open spec fn pair_edges_spec(kind: CheckerKind, outer: Node, inner: Node, res: ServiceResources, sv: Option<Seq<Seq<Policy>>>, t: Seq<char>, e: i64) -> Seq<EdgeSpec> {
    if !dest_ok(kind, outer, sv, t, e) {
        Seq::empty()
    } else {
        match kind {
            CheckerKind::Iam => crate::edges::iam::iam_pair(outer, inner, sv, t, e),
            CheckerKind::Sts => crate::edges::sts::sts_pair(outer, inner, sv, t, e),
            CheckerKind::Ec2 => crate::edges::ec2::ec2_pair(outer, inner, sv, t, e),
            CheckerKind::Ssm => crate::edges::ssm::ssm_pair(outer, inner, sv, t, e),
            CheckerKind::AutoScaling => crate::edges::autoscaling::autoscaling_pair(outer, inner, sv, t, e),
            CheckerKind::SageMaker => crate::edges::sagemaker::sagemaker_pair(outer, inner, sv, t, e),
            CheckerKind::Lambda => lambda_pair(outer, inner, res.functions, sv, t, e),
            CheckerKind::CodeBuild => codebuild_pair(outer, inner, res.projects, sv, t, e),
            CheckerKind::CloudFormation => cloudformation_pair(outer, inner, res.stacks, sv, t, e),
        }
    }
}

/// The pair rule of a checker as a function of the pair.
pub open spec fn rule(kind: CheckerKind, res: ServiceResources, sv: Option<Seq<Seq<Policy>>>, t: Seq<char>, e: i64) -> spec_fn(Node, Node) -> Seq<EdgeSpec> {
    |o: Node, i: Node| pair_edges_spec(kind, o, i, res, sv, t, e)
}

/// The edges a checker finds over all pairs of principals.
pub open spec fn checker_edges(kind: CheckerKind, nodes: Seq<Node>, res: ServiceResources, sv: Option<Seq<Seq<Policy>>>, t: Seq<char>, e: i64) -> Seq<EdgeSpec> {
    grid(nodes, nodes, rule(kind, res, sv, t, e))
}

/// The resources given to a checker.
pub open spec fn resources_view(functions: &[LambdaFunction], projects: &[CodeBuildProject], stacks: &[CfnStack]) -> ServiceResources {
    ServiceResources { functions: functions@, projects: projects@, stacks: stacks@ }
}

/// Whether `src` may perform `action` on `resource` with the given keys, and needs MFA for it.
pub(crate) fn check(
    src: &Node,
    action: &str,
    resource: &str,
    keys: &CaseInsensitiveMap,
    scps: Option<&[Vec<&Policy>]>,
    now: &RequestTime,
) -> (r: (bool, bool))
    ensures
        r == may(*src, action@, resource@, user_pairs(*keys), scps_view(scps), now.rfc3339@, now.epoch_seconds),
{
    local_check_authorization_handling_mfa_at(src, action, resource, keys, scps, now)
}

/// An empty set of condition keys.
pub(crate) fn empty_keys() -> (r: CaseInsensitiveMap)
    ensures
        user_pairs(r) == no_keys(),
        r@ == Map::<Seq<char>, Seq<Seq<char>>>::empty(),
{
    let r = CaseInsensitiveMap::new();
    proof {
        assert(r.entries@.map_values(|e: crate::ci_map::CiEntry| (e.key@, crate::ci_map::strings_view(e.values@))) =~= Seq::empty());
        assert(r@ =~= Map::<Seq<char>, Seq<Seq<char>>>::empty()) by {
            assert forall|k: Seq<char>| !r@.dom().contains(k) by {
                assert(ctx_get(r@, k) is None);
            }
        }
    }
    r
}

/// The condition keys of a pass-role check: `iam:PassedToService` set to `service`.
pub(crate) fn pass_role_keys(service: &str) -> (r: CaseInsensitiveMap)
    ensures
        user_pairs(r) == passed_to(service@),
{
    let mut r = CaseInsensitiveMap::new();
    r.insert_single("iam:PassedToService", service);
    proof {
        let es = r.entries@.map_values(|e: crate::ci_map::CiEntry| (e.key@, crate::ci_map::strings_view(e.values@)));
        assert(es.len() == 1);
        assert(es.drop_last() =~= Seq::<(Seq<char>, Seq<Seq<char>>)>::empty());
        assert(crate::policy_eval::context_keys::entry_pairs(es.drop_last()) =~= Seq::empty());
        assert(es.last().0 == "iam:PassedToService"@);
        assert(es.last().1 == seq![service@]);
        assert(es.last().1.map_values(|v: Seq<char>| (es.last().0, v)) =~= passed_to(service@));
        assert(user_pairs(r) =~= passed_to(service@));
    }
    r
}

/// The text `s`, marked as needing MFA when `mfa` holds.
pub(crate) fn with_mfa_note(s: String, mfa: bool) -> (r: String)
    ensures
        r@ == s@ + mfa_suffix(mfa),
{
    if mfa {
        join2(s.as_str(), " (MFA required)")
    } else {
        proof {
            assert(s@ + Seq::<char>::empty() =~= s@);
        }
        s
    }
}

/// Appends `more` to `out`.
pub(crate) fn append_edges(out: &mut Vec<Edge>, more: Vec<Edge>)
    ensures
        edge_views(final(out)@) == edge_views(old(out)@) + edge_views(more@),
{
    let ghost start = out@;
    let mut more = more;
    let mut i: usize = 0;
    let ghost m = more@;
    let n = more.len();
    while i < n
        invariant
            n == m.len(),
            i <= m.len(),
            more@.len() == m.len() - i,
            forall|k: int| 0 <= k < more@.len() ==> more@[k] == m[k + i],
            edge_views(out@) == edge_views(start) + edge_views(m.take(i as int)),
        decreases n - i,
    {
        let e = more.remove(0);
        proof {
            assert(e == m[i as int]);
        }
        let ghost prev = out@;
        out.push(e);
        proof {
            assert(edge_views(out@) =~= edge_views(prev).push(e@));
            assert(edge_views(m.take(i + 1)) =~= edge_views(m.take(i as int)).push(m[i as int]@));
            assert(edge_views(out@) =~= edge_views(start) + edge_views(m.take(i + 1)));
        }
        i = i + 1;
    }
    proof {
        assert(m.take(m.len() as int) =~= m);
    }
}

/// No edges.
pub(crate) fn no_edges() -> (r: Vec<Edge>)
    ensures
        edge_views(r@) == Seq::<EdgeSpec>::empty(),
{
    let r: Vec<Edge> = Vec::new();
    proof {
        assert(edge_views(r@) =~= Seq::<EdgeSpec>::empty());
    }
    r
}

/// A single edge from `src` to `dst`.
pub(crate) fn one_edge(src: &Node, dst: &Node, reason: String, short: &str) -> (r: Vec<Edge>)
    ensures
        edge_views(r@) == seq![edge_of(*src, *dst, reason@, short@)],
{
    let mut r: Vec<Edge> = Vec::new();
    r.push(Edge::new(src.arn.as_str(), dst.arn.as_str(), reason.as_str(), short));
    proof {
        assert(edge_views(r@) =~= seq![edge_of(*src, *dst, reason@, short@)]);
    }
    r
}

/// A role whose trust policy lets `service` assume it.
pub open spec fn role_trusts(dst: Node, service: Seq<char>) -> bool {
    dst.spec_is_role() && match dst.trust_policy {
        Some(tp) => service_trusted(tp@, service),
        None => false,
    }
}

/// The role has at least one instance profile.
pub open spec fn has_instance_profile(dst: Node) -> bool {
    dst.instance_profile matches Some(v) && v@.len() > 0
}

pub(crate) fn role_trusts_check(dst: &Node, service: &str) -> (r: bool)
    ensures
        r == role_trusts(*dst, service@),
{
    if !dst.is_role() {
        return false;
    }
    match &dst.trust_policy {
        Some(tp) => service_can_assume_role(tp, service),
        None => false,
    }
}

pub(crate) fn has_instance_profile_check(dst: &Node) -> (r: bool)
    ensures
        r == has_instance_profile(*dst),
{
    match &dst.instance_profile {
        Some(v) => v.len() > 0,
        None => false,
    }
}

/// No service resources.
pub open spec fn no_resources() -> ServiceResources {
    ServiceResources { functions: Seq::empty(), projects: Seq::empty(), stacks: Seq::empty() }
}

/// Only Lambda functions.
pub open spec fn lambda_resources(fs: Seq<LambdaFunction>) -> ServiceResources {
    ServiceResources { functions: fs, projects: Seq::empty(), stacks: Seq::empty() }
}

/// Only CodeBuild projects.
pub open spec fn codebuild_resources(ps: Seq<CodeBuildProject>) -> ServiceResources {
    ServiceResources { functions: Seq::empty(), projects: ps, stacks: Seq::empty() }
}

/// Only CloudFormation stacks.
pub open spec fn cloudformation_resources(ss: Seq<CfnStack>) -> ServiceResources {
    ServiceResources { functions: Seq::empty(), projects: Seq::empty(), stacks: ss }
}

fn dest_check(kind: CheckerKind, dst: &Node, scps: Option<&[Vec<&Policy>]>, now: &RequestTime) -> (r: bool)
    ensures
        r == dest_ok(kind, *dst, scps_view(scps), now.rfc3339@, now.epoch_seconds),
{
    match kind {
        CheckerKind::Iam => true,
        CheckerKind::Sts => crate::edges::sts::sts_dest_check(dst),
        CheckerKind::Ec2 => crate::edges::ec2::ec2_dest_check(dst),
        CheckerKind::Ssm => crate::edges::ssm::ssm_dest_check(dst, now),
        CheckerKind::AutoScaling => crate::edges::autoscaling::autoscaling_dest_check(dst),
        CheckerKind::SageMaker => crate::edges::sagemaker::sagemaker_dest_check(dst),
        CheckerKind::Lambda => lambda_dest_check(dst),
        CheckerKind::CodeBuild => codebuild_dest_check(dst),
        CheckerKind::CloudFormation => cloudformation_dest_check(dst),
    }
}

fn pair_edges(
    kind: CheckerKind,
    outer: &Node,
    inner: &Node,
    functions: &[LambdaFunction],
    projects: &[CodeBuildProject],
    stacks: &[CfnStack],
    scps: Option<&[Vec<&Policy>]>,
    now: &RequestTime,
) -> (r: Vec<Edge>)
    requires
        dest_ok(kind, *outer, scps_view(scps), now.rfc3339@, now.epoch_seconds),
    ensures
        edge_views(r@) == pair_edges_spec(kind, *outer, *inner, resources_view(functions, projects, stacks), scps_view(scps), now.rfc3339@, now.epoch_seconds),
{
    match kind {
        CheckerKind::Iam => crate::edges::iam::iam_pair_edges(outer, inner, scps, now),
        CheckerKind::Sts => crate::edges::sts::sts_pair_edges(outer, inner, scps, now),
        CheckerKind::Ec2 => crate::edges::ec2::ec2_pair_edges(outer, inner, scps, now),
        CheckerKind::Ssm => crate::edges::ssm::ssm_pair_edges(outer, inner, scps, now),
        CheckerKind::AutoScaling => crate::edges::autoscaling::autoscaling_pair_edges(outer, inner, scps, now),
        CheckerKind::SageMaker => crate::edges::sagemaker::sagemaker_pair_edges(outer, inner, scps, now),
        CheckerKind::Lambda => lambda_pair_edges(outer, inner, functions, scps, now),
        CheckerKind::CodeBuild => codebuild_pair_edges(outer, inner, projects, scps, now),
        CheckerKind::CloudFormation => cloudformation_pair_edges(outer, inner, stacks, scps, now),
    }
}

/// Runs a checker over every ordered pair of `nodes`: the destination
/// checks once per outer principal, then the pair rule for each inner one.
pub(crate) fn run_checker(
    kind: CheckerKind,
    nodes: &[Arc<Node>],
    functions: &[LambdaFunction],
    projects: &[CodeBuildProject],
    stacks: &[CfnStack],
    scps: Option<&[Vec<&Policy>]>,
    now: &RequestTime,
) -> (r: Vec<Edge>)
    ensures
        edge_views(r@) == checker_edges(kind, node_seq(nodes@), resources_view(functions, projects, stacks), scps_view(scps), now.rfc3339@, now.epoch_seconds),
{
    let ghost ns = node_seq(nodes@);
    let ghost f = rule(kind, resources_view(functions, projects, stacks), scps_view(scps), now.rfc3339@, now.epoch_seconds);
    let mut edges: Vec<Edge> = Vec::new();
    proof {
        assert(edge_views(edges@) =~= Seq::<EdgeSpec>::empty());
        assert(ns.take(0) =~= Seq::<Node>::empty());
    }
    let mut i: usize = 0;
    while i < nodes.len()
        invariant
            i <= nodes@.len(),
            ns == node_seq(nodes@),
            f == rule(kind, resources_view(functions, projects, stacks), scps_view(scps), now.rfc3339@, now.epoch_seconds),
            edge_views(edges@) == grid(ns.take(i as int), ns, f),
        decreases nodes@.len() - i,
    {
        let outer: &Node = &nodes[i];
        let ghost before = edge_views(edges@);
        proof {
            assert(*outer == ns[i as int]);
        }
        if dest_check(kind, outer, scps, now) {
            let mut j: usize = 0;
            proof {
                assert(ns.take(0) =~= Seq::<Node>::empty());
                assert(before + row(*outer, ns.take(0), f) =~= before);
            }
            while j < nodes.len()
                invariant
                    i < nodes@.len(),
                    j <= nodes@.len(),
                    ns == node_seq(nodes@),
                    *outer == ns[i as int],
                    dest_ok(kind, *outer, scps_view(scps), now.rfc3339@, now.epoch_seconds),
                    f == rule(kind, resources_view(functions, projects, stacks), scps_view(scps), now.rfc3339@, now.epoch_seconds),
                    edge_views(edges@) == before + row(*outer, ns.take(j as int), f),
                decreases nodes@.len() - j,
            {
                let inner: &Node = &nodes[j];
                let pe = pair_edges(kind, outer, inner, functions, projects, stacks, scps, now);
                append_edges(&mut edges, pe);
                proof {
                    assert(*inner == ns[j as int]);
                    assert(ns.take(j + 1).drop_last() =~= ns.take(j as int));
                    assert(f(*outer, *inner) == pair_edges_spec(kind, *outer, *inner, resources_view(functions, projects, stacks), scps_view(scps), now.rfc3339@, now.epoch_seconds));
                    assert(edge_views(edges@) =~= before + row(*outer, ns.take(j + 1), f));
                }
                j = j + 1;
            }
            proof {
                assert(ns.take(nodes@.len() as int) =~= ns);
            }
        } else {
            proof {
                assert forall|k: int| 0 <= k < ns.len() implies f(*outer, #[trigger] ns[k]).len() == 0 by {}
                lemma_row_empty(*outer, ns, f);
                assert(edge_views(edges@) =~= before + row(*outer, ns, f));
            }
        }
        proof {
            assert(ns.take(i + 1).drop_last() =~= ns.take(i as int));
            assert(ns.take(i + 1).last() == ns[i as int]);
        }
        i = i + 1;
    }
    proof {
        assert(ns.take(nodes@.len() as int) =~= ns);
    }
    edges
}

/// Runs a checker that reads no service resources.
pub(crate) fn run_checker_plain(kind: CheckerKind, nodes: &[Arc<Node>], scps: Option<&[Vec<&Policy>]>, now: &RequestTime) -> (r: Vec<Edge>)
    ensures
        edge_views(r@) == checker_edges(kind, node_seq(nodes@), no_resources(), scps_view(scps), now.rfc3339@, now.epoch_seconds),
{
    let functions: Vec<LambdaFunction> = Vec::new();
    let functions_s = functions.as_slice();
    let projects: Vec<CodeBuildProject> = Vec::new();
    let projects_s = projects.as_slice();
    let stacks: Vec<CfnStack> = Vec::new();
    let stacks_s = stacks.as_slice();
    let r = run_checker(kind, nodes, functions_s, projects_s, stacks_s, scps, now);
    proof {
        assert(resources_view(functions_s, projects_s, stacks_s) =~= no_resources());
    }
    r
}

/// The edges of each checker in turn.
pub open spec fn all_checker_edges(ks: Seq<CheckerKind>, nodes: Seq<Node>, res: ServiceResources, sv: Option<Seq<Seq<Policy>>>, t: Seq<char>, e: i64) -> Seq<EdgeSpec>
    decreases ks.len(),
{
    if ks.len() == 0 {
        Seq::empty()
    } else {
        all_checker_edges(ks.drop_last(), nodes, res, sv, t, e) + checker_edges(ks.last(), nodes, res, sv, t, e)
    }
}

/// Runs the given checkers in order at time `now` and gathers their edges.
/// The Lambda, CodeBuild and CloudFormation checkers read the functions,
/// projects and stacks given (empty when they were not fetched).
pub fn obtain_edges_at(
    checkers: &[CheckerKind],
    nodes: &[Arc<Node>],
    functions: &[LambdaFunction],
    projects: &[CodeBuildProject],
    stacks: &[CfnStack],
    scps: Option<&[Vec<&Policy>]>,
    now: &RequestTime,
) -> (r: Vec<Edge>)
    ensures
        edge_views(r@) == all_checker_edges(checkers@, node_seq(nodes@), resources_view(functions, projects, stacks), scps_view(scps), now.rfc3339@, now.epoch_seconds),
{
    let ghost ks = checkers@;
    let ghost ns = node_seq(nodes@);
    let ghost res = resources_view(functions, projects, stacks);
    let ghost sv = scps_view(scps);
    let mut all_edges = no_edges();
    let mut i: usize = 0;
    proof {
        assert(ks.take(0) =~= Seq::<CheckerKind>::empty());
    }
    while i < checkers.len()
        invariant
            i <= ks.len(),
            ks == checkers@,
            ns == node_seq(nodes@),
            res == resources_view(functions, projects, stacks),
            sv == scps_view(scps),
            edge_views(all_edges@) == all_checker_edges(ks.take(i as int), ns, res, sv, now.rfc3339@, now.epoch_seconds),
        decreases ks.len() - i,
    {
        let kind = checkers[i];
        let edges = run_checker(kind, nodes, functions, projects, stacks, scps, now);
        append_edges(&mut all_edges, edges);
        proof {
            assert(ks.take(i + 1).drop_last() =~= ks.take(i as int));
            assert(ks.take(i + 1).last() == kind);
        }
        i = i + 1;
    }
    proof {
        assert(ks.take(ks.len() as int) =~= ks);
    }
    all_edges
}

/// Runs the given checkers in order, evaluated at the present moment.
pub fn obtain_edges(
    checkers: &[CheckerKind],
    nodes: &[Arc<Node>],
    functions: &[LambdaFunction],
    projects: &[CodeBuildProject],
    stacks: &[CfnStack],
    scps: Option<&[Vec<&Policy>]>,
) -> (r: Vec<Edge>)
    ensures
        exists|n: RequestTime| time_consistent(n) && edge_views(r@) == #[trigger] all_checker_edges(checkers@, node_seq(nodes@), resources_view(functions, projects, stacks), scps_view(scps), n.rfc3339@, n.epoch_seconds),
{
    let now = current_time();
    obtain_edges_at(checkers, nodes, functions, projects, stacks, scps, &now)
}

/// `x` leads from principal `a` to a different principal `b`, and `a` is
/// not an administrator.
pub open spec fn edge_between(x: EdgeSpec, a: Node, b: Node) -> bool {
    x.source == a.arn@ && x.destination == b.arn@ && !a.is_admin && a.arn@ != b.arn@
}

/// `x` leads between two principals of `nodes` as `edge_between` says.
pub open spec fn edge_in(x: EdgeSpec, nodes: Seq<Node>) -> bool {
    exists|a: int, b: int| 0 <= a < nodes.len() && 0 <= b < nodes.len() && #[trigger] edge_between(x, nodes[a], nodes[b])
}

/// An edge of a pair leads from the pair's source to its destination (the
/// outer principal is the source for the IAM checker only).
pub open spec fn pair_edge_ok(kind: CheckerKind, outer: Node, inner: Node, x: EdgeSpec) -> bool {
    if kind == CheckerKind::Iam {
        edge_between(x, outer, inner)
    } else {
        edge_between(x, inner, outer)
    }
}

proof fn lemma_pair_edges_ok(kind: CheckerKind, o: Node, i: Node, res: ServiceResources, sv: Option<Seq<Seq<Policy>>>, t: Seq<char>, e: i64)
    ensures
        forall|k: int| 0 <= k < pair_edges_spec(kind, o, i, res, sv, t, e).len()
            ==> pair_edge_ok(kind, o, i, #[trigger] pair_edges_spec(kind, o, i, res, sv, t, e)[k]),
{
}

proof fn lemma_row_ok(kind: CheckerKind, o: Node, inners: Seq<Node>, nodes: Seq<Node>, a: int, res: ServiceResources, sv: Option<Seq<Seq<Policy>>>, t: Seq<char>, e: i64)
    requires
        0 <= a < nodes.len(),
        nodes[a] == o,
        inners.len() <= nodes.len(),
        forall|j: int| 0 <= j < inners.len() ==> inners[j] == nodes[j],
    ensures
        forall|k: int| 0 <= k < row(o, inners, rule(kind, res, sv, t, e)).len() ==> edge_in(#[trigger] row(o, inners, rule(kind, res, sv, t, e))[k], nodes),
    decreases inners.len(),
{
    let f = rule(kind, res, sv, t, e);
    if inners.len() > 0 {
        let last = inners.len() - 1;
        lemma_row_ok(kind, o, inners.drop_last(), nodes, a, res, sv, t, e);
        lemma_pair_edges_ok(kind, o, inners[last], res, sv, t, e);
        let r0 = row(o, inners.drop_last(), f);
        let p = f(o, inners[last]);
        assert(row(o, inners, f) == r0 + p);
        assert forall|k: int| 0 <= k < row(o, inners, f).len() implies edge_in(#[trigger] row(o, inners, f)[k], nodes) by {
            if k < r0.len() {
                assert(row(o, inners, f)[k] == r0[k]);
            } else {
                let z = row(o, inners, f)[k];
                assert(z == p[k - r0.len()]);
                assert(pair_edge_ok(kind, o, inners[last], p[k - r0.len()]));
                if kind == CheckerKind::Iam {
                    assert(edge_between(z, nodes[a], nodes[last]));
                } else {
                    assert(edge_between(z, nodes[last], nodes[a]));
                }
            }
        }
    }
}

proof fn lemma_grid_ok(kind: CheckerKind, outers: Seq<Node>, nodes: Seq<Node>, res: ServiceResources, sv: Option<Seq<Seq<Policy>>>, t: Seq<char>, e: i64)
    requires
        outers.len() <= nodes.len(),
        forall|j: int| 0 <= j < outers.len() ==> outers[j] == nodes[j],
    ensures
        forall|k: int| 0 <= k < grid(outers, nodes, rule(kind, res, sv, t, e)).len() ==> edge_in(#[trigger] grid(outers, nodes, rule(kind, res, sv, t, e))[k], nodes),
    decreases outers.len(),
{
    let f = rule(kind, res, sv, t, e);
    if outers.len() > 0 {
        let last = outers.len() - 1;
        lemma_grid_ok(kind, outers.drop_last(), nodes, res, sv, t, e);
        lemma_row_ok(kind, outers[last], nodes, nodes, last, res, sv, t, e);
        let g0 = grid(outers.drop_last(), nodes, f);
        let r = row(outers[last], nodes, f);
        assert(grid(outers, nodes, f) == g0 + r);
        assert forall|k: int| 0 <= k < grid(outers, nodes, f).len() implies edge_in(#[trigger] grid(outers, nodes, f)[k], nodes) by {
            if k < g0.len() {
                assert(grid(outers, nodes, f)[k] == g0[k]);
            } else {
                assert(grid(outers, nodes, f)[k] == r[k - g0.len()]);
            }
        }
    }
}

/// Every edge a checker finds leads from one principal of the list to a
/// different one, and never from an administrator.
pub proof fn law_edges_between_principals(kind: CheckerKind, nodes: Seq<Node>, res: ServiceResources, sv: Option<Seq<Seq<Policy>>>, t: Seq<char>, e: i64)
    ensures
        forall|k: int| 0 <= k < checker_edges(kind, nodes, res, sv, t, e).len() ==> edge_in(#[trigger] checker_edges(kind, nodes, res, sv, t, e)[k], nodes),
{
    lemma_grid_ok(kind, nodes, nodes, res, sv, t, e);
}

} // verus!
