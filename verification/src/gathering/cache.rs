//! The offline cache of what was gathered: its records, the names of the
//! per-policy files and the index that lists them.
use vstd::prelude::*;
use std::sync::Arc;
use crate::json::{Json, JsonValue, JsonField, keys_view, values_view, lemma_object_view};
use crate::text::{usize_text, owned, chars_of, string_of, contains_str, contains_seq, nat_text, join2, cat3};
use crate::arns::{account_id_of, get_account_id};
use crate::model::node::Node;
use crate::model::group::Group;
use crate::edges::node_seq;
use crate::gathering::{group_seq, policy_triple};

verus! {

/// The identity the graph was gathered with.
pub struct CallerIdentityCache {
    pub account_id: String,
    pub arn: String,
    pub user_id: String,
}

/// A Lambda function and its role.
pub struct LambdaFunctionCache {
    pub function_arn: String,
    pub role_arn: String,
}

/// A CodeBuild project and its service role.
pub struct CodeBuildProjectCache {
    pub project_arn: String,
    pub service_role_arn: String,
}

/// A CloudFormation stack and its role.
pub struct CloudFormationStackCache {
    pub stack_arn: String,
    pub role_arn: Option<String>,
}

/// A resource policy of some service.
pub struct ResourcePolicyCache {
    pub arn: String,
    pub name: String,
    pub service: String,
    pub policy_doc: JsonValue,
}

/// The gathered API responses.
pub struct ApiCache {
    pub caller_identity: CallerIdentityCache,
    pub iam_authorization_details: JsonValue,
    pub lambda_functions: Vec<LambdaFunctionCache>,
    pub codebuild_projects: Vec<CodeBuildProjectCache>,
    pub cloudformation_stacks: Vec<CloudFormationStackCache>,
    pub resource_policies: Vec<ResourcePolicyCache>,
}

/// A policy document with what it is and what it is attached to.
pub struct CachedPolicy {
    pub arn: String,
    pub name: String,
    /// `managed`, `inline-user`, `inline-role`, `inline-group`, `trust` or `permissions-boundary`.
    pub policy_type: String,
    pub attached_to: String,
    pub policy_document: JsonValue,
}

/// The list of cached policy files.
pub struct PolicyIndex {
    pub account_id: String,
    pub total_policies: usize,
    pub entries: Vec<PolicyIndexEntry>,
}

/// One cached policy file.
pub struct PolicyIndexEntry {
    pub arn: String,
    pub name: String,
    pub policy_type: String,
    pub attached_to: String,
    pub filename: String,
}

/// `char::is_alphanumeric`: Unicode's alphabetic or numeric property.
pub uninterp spec fn unicode_alphanumeric(c: char) -> bool;

/// `char::is_alphanumeric`: claimed only to be a function of the character.
#[verifier::external_body]
fn is_alphanumeric(c: char) -> (r: bool)
    ensures
        r == unicode_alphanumeric(c),
{
    c.is_alphanumeric()
}

/// A character kept in file names: alphanumeric, `-` or `_`; any other
/// becomes `_`.
pub open spec fn file_char(c: char) -> char {
    if unicode_alphanumeric(c) || c == '-' || c == '_' {
        c
    } else {
        '_'
    }
}

/// A name made safe for a file name: each character mapped by `file_char`,
/// cut to its first 60 characters.
pub open spec fn sanitized(s: Seq<char>) -> Seq<char> {
    let m = s.map_values(|c: char| file_char(c));
    if m.len() <= 60 {
        m
    } else {
        m.take(60)
    }
}

/// `name` made safe for a file name.
pub fn sanitize_filename(s: &str) -> (r: String)
    ensures
        r@ == sanitized(s@),
{
    let cs = chars_of(s);
    let mut out: Vec<char> = Vec::new();
    let mut i: usize = 0;
    while i < cs.len() && i < 60
        invariant
            i <= cs@.len(),
            i <= 60,
            cs@ == s@,
            out@ == s@.take(i as int).map_values(|c: char| file_char(c)),
        decreases cs@.len() - i,
    {
        let c = cs[i];
        let keep = is_alphanumeric(c) || c == '-' || c == '_';
        let ghost prev = out@;
        out.push(if keep { c } else { '_' });
        proof {
            assert(s@.take(i + 1).map_values(|c: char| file_char(c)) =~= prev.push(file_char(c)));
        }
        i = i + 1;
    }
    proof {
        let m = s@.map_values(|c: char| file_char(c));
        if m.len() <= 60 {
            assert(s@.take(i as int) =~= s@);
        } else {
            assert(s@.take(60).map_values(|c: char| file_char(c)) =~= m.take(60));
        }
    }
    string_of(&out)
}

/// Decimal text of `n` padded with zeros to at least four characters.
pub open spec fn padded4(n: nat) -> Seq<char> {
    let t = nat_text(n);
    if t.len() >= 4 {
        t
    } else {
        Seq::new((4 - t.len()) as nat, |i: int| '0') + t
    }
}

/// The file name of the `index`-th cached policy: `NNNN_<sanitized name>.json`.
pub open spec fn policy_file_name_spec(index: nat, name: Seq<char>) -> Seq<char> {
    padded4(index) + seq!['_'] + sanitized(name) + ".json"@
}

/// The file name of the `index`-th cached policy.
pub fn policy_file_name(index: usize, name: &str) -> (r: String)
    ensures
        r@ == policy_file_name_spec(index as nat, name@),
{
    let digits = usize_text(index);
    let mut s = String::new();
    let mut k: usize = chars_of(digits.as_str()).len();
    let ghost zeros: Seq<char> = Seq::empty();
    proof {
        assert(s@ == zeros);
    }
    while k < 4
        invariant
            digits@ == nat_text(index as nat),
            digits@.len() <= k <= 4 || (k == digits@.len() && k > 4),
            k >= digits@.len(),
            s@ == Seq::new((k - digits@.len()) as nat, |i: int| '0'),
        decreases 4 - k,
    {
        let ghost prev = s@;
        s.push('0');
        proof {
            assert(s@ =~= Seq::new((k + 1 - digits@.len()) as nat, |i: int| '0'));
        }
        k = k + 1;
    }
    s.append(digits.as_str());
    s.push('_');
    let safe = sanitize_filename(name);
    s.append(safe.as_str());
    s.append(".json");
    proof {
        let t = nat_text(index as nat);
        if t.len() >= 4 {
            assert(Seq::new((k - digits@.len()) as nat, |i: int| '0') =~= Seq::<char>::empty());
        }
        assert(s@ =~= policy_file_name_spec(index as nat, name@));
    }
    s
}

/// A cached policy as (ARN, name, type, attached to, document).
pub type CachedSpec = (Seq<char>, Seq<char>, Seq<char>, Seq<char>, Json);

/// The content of a cached policy.
pub open spec fn cached_view(c: CachedPolicy) -> CachedSpec {
    (c.arn@, c.name@, c.policy_type@, c.attached_to@, c.policy_document@)
}

/// The contents of a list of cached policies.
pub open spec fn cached_views(cs: Seq<CachedPolicy>) -> Seq<CachedSpec> {
    cs.map_values(|c: CachedPolicy| cached_view(c))
}

/// The kind of a policy attached to a principal: managed when its ARN
/// names a policy, otherwise inline to a user or a role.
pub open spec fn attached_kind(policy_arn: Seq<char>, node: Node) -> Seq<char> {
    if contains_seq(policy_arn, ":policy/"@) {
        "managed"@
    } else if node.spec_is_user() {
        "inline-user"@
    } else {
        "inline-role"@
    }
}

/// The cached policies of one principal: its attached policies, then its
/// trust policy, then its permissions boundary.
pub open spec fn node_cached(n: Node) -> Seq<CachedSpec> {
    let attached = n.attached_policies@.map_values(|p: crate::model::policy::Policy|
        (p.arn@, p.name@, attached_kind(p.arn@, n), n.arn@, p.policy_doc@));
    let trust = match n.trust_policy {
        Some(t) => seq![(n.arn@ + "/trust-policy"@, n.spec_searchable_name() + "-trust"@, "trust"@, n.arn@, t@)],
        None => Seq::empty(),
    };
    let boundary = match n.permissions_boundary {
        Some(b) => seq![(b.arn@, b.name@, "permissions-boundary"@, n.arn@, b.policy_doc@)],
        None => Seq::empty(),
    };
    attached + trust + boundary
}

/// The cached policies of one group.
pub open spec fn group_cached(g: Group) -> Seq<CachedSpec> {
    g.attached_policies@.map_values(|p: crate::model::policy::Policy| (p.arn@, p.name@, "inline-group"@, g.arn@, p.policy_doc@))
}

/// The cached policies of each principal, then of each group.
pub open spec fn nodes_cached(ns: Seq<Node>) -> Seq<CachedSpec>
    decreases ns.len(),
{
    if ns.len() == 0 {
        Seq::empty()
    } else {
        nodes_cached(ns.drop_last()) + node_cached(ns.last())
    }
}

pub open spec fn groups_cached(gs: Seq<Group>) -> Seq<CachedSpec>
    decreases gs.len(),
{
    if gs.len() == 0 {
        Seq::empty()
    } else {
        groups_cached(gs.drop_last()) + group_cached(gs.last())
    }
}

fn cached(arn: &str, name: &str, policy_type: &str, attached_to: &str, doc: &JsonValue) -> (r: CachedPolicy)
    ensures
        cached_view(r) == (arn@, name@, policy_type@, attached_to@, doc@),
{
    CachedPolicy {
        arn: owned(arn),
        name: owned(name),
        policy_type: owned(policy_type),
        attached_to: owned(attached_to),
        policy_document: doc.deep_copy(),
    }
}

fn push_cached(out: &mut Vec<CachedPolicy>, c: CachedPolicy)
    ensures
        cached_views(final(out)@) == cached_views(old(out)@).push(cached_view(c)),
{
    let ghost prev = out@;
    out.push(c);
    proof {
        assert(cached_views(out@) =~= cached_views(prev).push(cached_view(c)));
    }
}

fn push_node_cached(out: &mut Vec<CachedPolicy>, node: &Node)
    ensures
        cached_views(final(out)@) == cached_views(old(out)@) + node_cached(*node),
{
    let ghost start = cached_views(out@);
    let ghost attached = node.attached_policies@.map_values(|p: crate::model::policy::Policy|
        (p.arn@, p.name@, attached_kind(p.arn@, *node), node.arn@, p.policy_doc@));
    let is_user = node.is_user();
    let mut i: usize = 0;
    proof {
        assert(attached.take(0) =~= Seq::<CachedSpec>::empty());
        assert(start + attached.take(0) =~= start);
    }
    while i < node.attached_policies.len()
        invariant
            i <= node.attached_policies@.len(),
            is_user == node.spec_is_user(),
            attached == node.attached_policies@.map_values(|p: crate::model::policy::Policy|
                (p.arn@, p.name@, attached_kind(p.arn@, *node), node.arn@, p.policy_doc@)),
            cached_views(out@) == start + attached.take(i as int),
        decreases node.attached_policies@.len() - i,
    {
        let policy = &node.attached_policies[i];
        let policy_type = if contains_str(policy.arn.as_str(), ":policy/") {
            "managed"
        } else if is_user {
            "inline-user"
        } else {
            "inline-role"
        };
        push_cached(out, cached(policy.arn.as_str(), policy.name.as_str(), policy_type, node.arn.as_str(), &policy.policy_doc));
        proof {
            assert(attached.take(i + 1) =~= attached.take(i as int).push(attached[i as int]));
        }
        i = i + 1;
    }
    proof {
        assert(attached.take(i as int) =~= attached);
    }
    let ghost mid = cached_views(out@);
    match &node.trust_policy {
        Some(trust) => {
            let arn = join2(node.arn.as_str(), "/trust-policy");
            let sn = node.searchable_name();
            let name = join2(sn.as_str(), "-trust");
            push_cached(out, cached(arn.as_str(), name.as_str(), "trust", node.arn.as_str(), trust));
        },
        None => {},
    }
    match &node.permissions_boundary {
        Some(boundary) => {
            push_cached(out, cached(boundary.arn.as_str(), boundary.name.as_str(), "permissions-boundary", node.arn.as_str(), &boundary.policy_doc));
        },
        None => {},
    }
    proof {
        assert(cached_views(out@) =~= start + node_cached(*node));
    }
}

/// Every policy document of the graph, for the offline cache: each
/// principal's attached policies (managed, or inline to a user or role),
/// trust policy and permissions boundary, then each group's policies.
pub fn collect_cached_policies(nodes: &[Arc<Node>], groups: &[Arc<Group>]) -> (r: Vec<CachedPolicy>)
    ensures
        cached_views(r@) == nodes_cached(node_seq(nodes@)) + groups_cached(group_seq(groups@)),
{
    let ghost ns = node_seq(nodes@);
    let ghost gs = group_seq(groups@);
    let mut out: Vec<CachedPolicy> = Vec::new();
    let mut i: usize = 0;
    proof {
        assert(cached_views(out@) =~= Seq::<CachedSpec>::empty());
        assert(ns.take(0) =~= Seq::<Node>::empty());
    }
    while i < nodes.len()
        invariant
            i <= nodes@.len(),
            ns == node_seq(nodes@),
            cached_views(out@) == nodes_cached(ns.take(i as int)),
        decreases nodes@.len() - i,
    {
        let node: &Node = &nodes[i];
        push_node_cached(&mut out, node);
        proof {
            assert(ns.take(i + 1).drop_last() =~= ns.take(i as int));
            assert(ns.take(i + 1).last() == *node);
        }
        i = i + 1;
    }
    proof {
        assert(ns.take(i as int) =~= ns);
        assert(gs.take(0) =~= Seq::<Group>::empty());
        assert(cached_views(out@) =~= nodes_cached(ns) + groups_cached(gs.take(0)));
    }
    let mut g: usize = 0;
    while g < groups.len()
        invariant
            g <= groups@.len(),
            ns == node_seq(nodes@),
            gs == group_seq(groups@),
            cached_views(out@) == nodes_cached(ns) + groups_cached(gs.take(g as int)),
        decreases groups@.len() - g,
    {
        let group: &Group = &groups[g];
        let ghost before = cached_views(out@);
        let ghost gc = group_cached(*group);
        let mut p: usize = 0;
        proof {
            assert(gc.take(0) =~= Seq::<CachedSpec>::empty());
            assert(before + gc.take(0) =~= before);
        }
        while p < group.attached_policies.len()
            invariant
                p <= group.attached_policies@.len(),
                gc == group_cached(*group),
                cached_views(out@) == before + gc.take(p as int),
            decreases group.attached_policies@.len() - p,
        {
            let policy = &group.attached_policies[p];
            push_cached(&mut out, cached(policy.arn.as_str(), policy.name.as_str(), "inline-group", group.arn.as_str(), &policy.policy_doc));
            proof {
                assert(gc.take(p + 1) =~= gc.take(p as int).push(gc[p as int]));
            }
            p = p + 1;
        }
        proof {
            assert(gc.take(p as int) =~= gc);
            assert(gs.take(g + 1).drop_last() =~= gs.take(g as int));
            assert(gs.take(g + 1).last() == *group);
            assert(cached_views(out@) =~= nodes_cached(ns) + groups_cached(gs.take(g + 1)));
        }
        g = g + 1;
    }
    proof {
        assert(gs.take(g as int) =~= gs);
    }
    out
}

/// The index of the cached policy files: the account of the first policy,
/// the number of policies, and for each its file name.
pub open spec fn index_entry_ok(e: PolicyIndexEntry, c: CachedPolicy, i: nat) -> bool {
    &&& e.arn@ == c.arn@
    &&& e.name@ == c.name@
    &&& e.policy_type@ == c.policy_type@
    &&& e.attached_to@ == c.attached_to@
    &&& e.filename@ == policy_file_name_spec(i, c.name@)
}

/// The index of the given cached policies, numbered from zero.
pub fn policy_index(policies: &[CachedPolicy]) -> (r: PolicyIndex)
    ensures
        r.account_id@ == (if policies@.len() > 0 { account_id_of(policies@[0].arn@) } else { Seq::empty() }),
        r.total_policies == policies@.len(),
        r.entries@.len() == policies@.len(),
        forall|i: int| 0 <= i < policies@.len() ==> index_entry_ok(#[trigger] r.entries@[i], policies@[i], i as nat),
{
    let mut entries: Vec<PolicyIndexEntry> = Vec::new();
    let mut i: usize = 0;
    while i < policies.len()
        invariant
            i <= policies@.len(),
            entries@.len() == i,
            forall|k: int| 0 <= k < i ==> index_entry_ok(#[trigger] entries@[k], policies@[k], k as nat),
        decreases policies@.len() - i,
    {
        let policy = &policies[i];
        let filename = policy_file_name(i, policy.name.as_str());
        entries.push(PolicyIndexEntry {
            arn: policy.arn.clone(),
            name: policy.name.clone(),
            policy_type: policy.policy_type.clone(),
            attached_to: policy.attached_to.clone(),
            filename,
        });
        i = i + 1;
    }
    let account_id = if policies.len() > 0 {
        get_account_id(policies[0].arn.as_str())
    } else {
        String::new()
    };
    PolicyIndex { account_id, total_policies: policies.len(), entries }
}

/// The content of a cached policy file: an object with the policy's ARN,
/// name, type, what it is attached to, and its document.
pub open spec fn policy_file_json(c: CachedPolicy) -> Json {
    Json::Object(
        seq!["arn"@, "name"@, "type"@, "attached_to"@, "document"@],
        seq![Json::Str(c.arn@), Json::Str(c.name@), Json::Str(c.policy_type@), Json::Str(c.attached_to@), c.policy_document@],
    )
}

fn field(key: &str, value: JsonValue) -> (r: JsonField)
    ensures
        r.key@ == key@,
        r.value == value,
{
    JsonField { key: owned(key), value }
}

/// The content of a cached policy file.
pub fn policy_file_content(c: &CachedPolicy) -> (r: JsonValue)
    ensures
        r@ == policy_file_json(*c),
{
    let mut fields: Vec<JsonField> = Vec::new();
    fields.push(field("arn", JsonValue::Str(c.arn.clone())));
    fields.push(field("name", JsonValue::Str(c.name.clone())));
    fields.push(field("type", JsonValue::Str(c.policy_type.clone())));
    fields.push(field("attached_to", JsonValue::Str(c.attached_to.clone())));
    fields.push(field("document", c.policy_document.deep_copy()));
    let r = JsonValue::Object(fields);
    proof {
        lemma_object_view(r, fields);
        assert(keys_view(fields@) =~= seq!["arn"@, "name"@, "type"@, "attached_to"@, "document"@]);
        assert(values_view(fields@) =~= seq![Json::Str(c.arn@), Json::Str(c.name@), Json::Str(c.policy_type@), Json::Str(c.attached_to@), c.policy_document@]);
    }
    r
}

} // verus!
