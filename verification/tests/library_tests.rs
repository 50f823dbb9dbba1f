use std::sync::Arc;

use iam_recon::analysis::findings::{
    gen_admin_users_without_mfa_finding, gen_all_findings, gen_circular_access_finding, gen_mfa_actions_findings,
    gen_overprivileged_function_findings, gen_overprivileged_instance_profile_findings, gen_overprivileged_stack_findings,
    gen_privesc_findings,
};
use iam_recon::analysis::gen_report;
use iam_recon::arns::{get_account_id, get_resource};
use iam_recon::ci_map::CaseInsensitiveMap;
use iam_recon::cli::completer::GraphCompleter;
use iam_recon::cli::options::{graph_counts, parse_checkers, parse_condition_keys, parse_list};
use iam_recon::cli::policies::{entry_matches, filter_entries, type_label};
use iam_recon::edges::CheckerKind;
use iam_recon::gathering::cache::{PolicyIndex, PolicyIndexEntry};
use iam_recon::gathering::resource_policies::{bucket_policy, key_policy, queue_policy, secret_policy, topic_policy};
use iam_recon::json::{JsonField, JsonValue};
use iam_recon::model::edge::Edge;
use iam_recon::model::finding::Severity;
use iam_recon::model::graph::{Graph, GraphMetadata};
use iam_recon::model::node::Node;
use iam_recon::model::org_tree::{OrgMetadata, OrganizationAccount, OrganizationNode, OrganizationTree, ServiceControlPolicy};
use iam_recon::model::policy::Policy;
use iam_recon::pathfinding::{category_name, gen_pathfinding_findings, principal_arns, EscalationCategory, EscalationPath, PathMatch, PathfindingMapper};
use iam_recon::text::{join_strings, trim};

fn s(x: &str) -> JsonValue {
    JsonValue::Str(x.to_string())
}

fn obj(fields: Vec<(&str, JsonValue)>) -> JsonValue {
    JsonValue::Object(fields.into_iter().map(|(k, v)| JsonField { key: k.to_string(), value: v }).collect())
}

fn arr(items: Vec<JsonValue>) -> JsonValue {
    JsonValue::Array(items)
}

fn strings(v: &[&str]) -> Vec<String> {
    v.iter().map(|x| x.to_string()).collect()
}

fn allow(action: JsonValue) -> JsonValue {
    obj(vec![("Statement", arr(vec![obj(vec![("Effect", s("Allow")), ("Action", action), ("Resource", s("*"))])]))])
}

fn node(arn: &str, policies: Vec<Policy>) -> Node {
    Node {
        arn: arn.to_string(),
        id_value: "AIDA00000000000000000".to_string(),
        attached_policies: policies,
        group_memberships: vec![],
        trust_policy: None,
        instance_profile: None,
        active_password: false,
        access_keys: 0,
        is_admin: false,
        permissions_boundary: None,
        has_mfa: false,
        tags: vec![],
    }
}

fn graph(nodes: Vec<Node>, edges: Vec<Edge>, policies: Vec<Policy>) -> Graph {
    Graph::new(
        nodes.into_iter().map(Arc::new).collect(),
        edges,
        policies.into_iter().map(Arc::new).collect(),
        vec![],
        GraphMetadata { account_id: "123456789012".to_string(), iam_recon_version: "1.1.5".to_string(), extra: vec![] },
    )
}

fn trust(service: &str) -> JsonValue {
    obj(vec![(
        "Statement",
        arr(vec![obj(vec![
            ("Effect", s("Allow")),
            ("Principal", obj(vec![("Service", s(service))])),
            ("Action", s("sts:AssumeRole")),
        ])]),
    )])
}

// ---------------------------------------------------------------- text

#[test]
fn trim_removes_surrounding_white_space() {
    assert_eq!(trim("  a b \t"), "a b");
    assert_eq!(trim("\u{3000}x\u{a0}"), "x");
    assert_eq!(trim("   "), "");
    assert_eq!(trim(""), "");
}

#[test]
fn join_puts_separator_between_parts() {
    assert_eq!(join_strings(&strings(&["a", "b", "c"]), ", "), "a, b, c");
    assert_eq!(join_strings(&strings(&["only"]), ", "), "only");
    assert_eq!(join_strings(&strings(&[]), ", "), "");
}

#[test]
fn arn_fields() {
    assert_eq!(get_account_id("arn:aws:iam::123456789012:user/Alice"), "123456789012");
    assert_eq!(get_resource("arn:aws:iam::123456789012:role/path/Admin"), "role/path/Admin");
    assert_eq!(get_account_id("not-an-arn"), "");
}

// ---------------------------------------------------------------- options

#[test]
fn checkers_all_and_named() {
    assert_eq!(parse_checkers("all"), CheckerKind::all());
    assert_eq!(parse_checkers(" iam , STS,bogus,lambda"), vec![CheckerKind::Iam, CheckerKind::Sts, CheckerKind::Lambda]);
    assert_eq!(parse_checkers(""), Vec::<CheckerKind>::new());
}

#[test]
fn region_list_is_trimmed() {
    assert_eq!(parse_list(" us-east-1, eu-west-1 "), strings(&["us-east-1", "eu-west-1"]));
    assert_eq!(parse_list("a,,b"), strings(&["a", "", "b"]));
}

#[test]
fn condition_arguments_last_wins_and_skip_bad_ones() {
    let m = parse_condition_keys(&strings(&["aws:SourceIp=10.0.0.1", "nokey", "AWS:sourceip=10.0.0.2=x"]));
    assert_eq!(m.get("aws:sourceip"), Some(&strings(&["10.0.0.2=x"])));
    assert_eq!(m.get("nokey"), None);
    assert_eq!(m.len(), 1);
}

#[test]
fn counts_users_roles_admins() {
    let mut admin = node("arn:aws:iam::123456789012:user/Admin", vec![]);
    admin.is_admin = true;
    let g = graph(
        vec![admin, node("arn:aws:iam::123456789012:user/Bob", vec![]), node("arn:aws:iam::123456789012:role/R", vec![])],
        vec![],
        vec![],
    );
    assert_eq!(graph_counts(&g), (2, 1, 1));
}

// ---------------------------------------------------------------- completer

fn completer_graph() -> Graph {
    let p1 = Policy::new("arn:aws:iam::123456789012:policy/Read", "Read", allow(arr(vec![s("s3:GetObject"), s("*"), s("iam:GetUser")])));
    let p2 = Policy::new("arn:aws:iam::123456789012:policy/All", "All", allow(s("*")));
    let alice = node("arn:aws:iam::123456789012:user/Alice", vec![Policy::new("inline", "inline", allow(s("ec2:RunInstances")))]);
    let admin = node("arn:aws:iam::123456789012:role/Admin", vec![]);
    let other = node("arn:aws:iam::999999999999:user/Alice", vec![]);
    graph(vec![alice, admin, other], vec![], vec![p1, p2])
}

#[test]
fn completer_collects_candidates() {
    let c = GraphCompleter::from_graph(&completer_graph());
    assert_eq!(c.principals, strings(&["role/Admin", "user/Alice"]));
    assert_eq!(
        c.arns,
        strings(&[
            "arn:aws:iam::123456789012:role/Admin",
            "arn:aws:iam::123456789012:user/Alice",
            "arn:aws:iam::999999999999:user/Alice",
        ])
    );
    assert_eq!(c.policy_names, strings(&["All", "Read"]));
    assert_eq!(c.account_ids, strings(&["123456789012", "999999999999"]));
    assert_eq!(c.actions, strings(&["ec2:RunInstances", "iam:GetUser", "s3:GetObject"]));
    assert_eq!(c.presets.len(), 6);
    assert_eq!(c.keywords.len(), 11);
    assert_eq!(c.all_candidates().len(), 2 + 3 + 6 + 11 + 3 + 2 + 2);
    assert!(c.all_candidates().contains(&"arn:aws:iam::999999999999:user/Alice"));
    assert!(c.all_candidates().contains(&"Read"));
    assert!(c.all_candidates().contains(&"999999999999"));
    assert_eq!(c.all_candidates()[0], "role/Admin");
}

#[test]
fn completer_completes_words() {
    let c = GraphCompleter::from_graph(&completer_graph());
    assert_eq!(c.complete_word("US"), strings(&["user/Alice"]));
    assert_eq!(c.complete_word("i"), strings(&["iam:GetUser", "is"]));
    assert_eq!(c.complete_word("9"), strings(&["999999999999"]));
    assert_eq!(c.complete_word("zzz"), Vec::<String>::new());
    // every completion is one of the candidates
    for w in ["a", "r", "s", "p", "w"] {
        for x in c.complete_word(w) {
            let all = [&c.principals, &c.actions, &c.presets, &c.keywords, &c.arns, &c.account_ids, &c.policy_names];
            assert!(all.iter().any(|l| l.contains(&x)));
        }
    }
}

// ---------------------------------------------------------------- findings

fn admin_user(name: &str, mfa: bool) -> Node {
    let mut n = node(
        &format!("arn:aws:iam::123456789012:user/{}", name),
        vec![Policy::new("arn:aws:iam::aws:policy/AdministratorAccess", "AdministratorAccess", allow(s("*")))],
    );
    n.is_admin = true;
    n.active_password = true;
    n.has_mfa = mfa;
    n
}

#[test]
fn admin_users_without_mfa_are_listed_in_one_finding() {
    let g = graph(vec![admin_user("A", false), admin_user("B", true), admin_user("C", false)], vec![], vec![]);
    let f = gen_admin_users_without_mfa_finding(&g);
    assert_eq!(f.len(), 1);
    assert_eq!(f[0].title, "Admin Users Without MFA");
    assert_eq!(f[0].severity, Severity::High);
    assert_eq!(f[0].description, "The following admin users do not have MFA enabled: user/A, user/C");
    let none = graph(vec![admin_user("B", true)], vec![], vec![]);
    assert!(gen_admin_users_without_mfa_finding(&none).is_empty());
}

#[test]
fn mfa_user_allowed_without_mfa_gets_one_finding() {
    let g = graph(vec![admin_user("B", true), admin_user("A", false)], vec![], vec![]);
    let f = gen_mfa_actions_findings(&g);
    assert_eq!(f.len(), 1);
    assert_eq!(f[0].title, "No MFA Required for iam:CreateUser");
    assert_eq!(f[0].severity, Severity::Medium);
    assert_eq!(f[0].impact, "user/B can call iam:CreateUser without MFA");
    assert_eq!(f[0].recommendation, "Add MFA condition to the policy granting iam:CreateUser to user/B.");
}

fn admin_role(name: &str, service: &str, profile: bool) -> Node {
    let mut n = node(&format!("arn:aws:iam::123456789012:role/{}", name), vec![]);
    n.is_admin = true;
    n.trust_policy = Some(trust(service));
    if profile {
        n.instance_profile = Some(strings(&["arn:aws:iam::123456789012:instance-profile/P"]));
    }
    n
}

#[test]
fn overprivileged_service_roles() {
    let g = graph(
        vec![
            admin_role("Fn", "lambda.amazonaws.com", false),
            admin_role("Ec2NoProfile", "ec2.amazonaws.com", false),
            admin_role("Ec2", "ec2.amazonaws.com", true),
            admin_role("Stack", "cloudformation.amazonaws.com", false),
        ],
        vec![],
        vec![],
    );
    let f = gen_overprivileged_function_findings(&g);
    assert_eq!(f.len(), 1);
    assert_eq!(f[0].title, "Overprivileged Lambda Role: role/Fn");
    let i = gen_overprivileged_instance_profile_findings(&g);
    assert_eq!(i.len(), 1);
    assert_eq!(i[0].description, "Role role/Ec2 has an instance profile and admin-level permissions.");
    let st = gen_overprivileged_stack_findings(&g);
    assert_eq!(st.len(), 1);
    assert_eq!(st[0].title, "Overprivileged Stack Role: role/Stack");
}

#[test]
fn circular_access_reported_once_per_pair() {
    let a = "arn:aws:iam::123456789012:user/A";
    let b = "arn:aws:iam::123456789012:role/B";
    let c = "arn:aws:iam::123456789012:role/C";
    let g = graph(
        vec![node(a, vec![]), node(b, vec![]), node(c, vec![])],
        vec![Edge::new(a, b, "can assume", "sts"), Edge::new(b, a, "can reset", "iam"), Edge::new(a, c, "can assume", "sts")],
        vec![],
    );
    let f = gen_circular_access_finding(&g);
    assert_eq!(f.len(), 1);
    assert_eq!(f[0].title, format!("Circular Access: user/A <-> {}", b));
    assert_eq!(f[0].severity, Severity::Low);
}

#[test]
fn privesc_findings_follow_the_answers() {
    let a = "arn:aws:iam::123456789012:user/A";
    let r = "arn:aws:iam::123456789012:role/Admin";
    let mut admin = node(r, vec![]);
    admin.is_admin = true;
    let g = graph(vec![node(a, vec![]), admin], vec![], vec![]);
    let answers = vec![Some((true, vec![Edge::new(a, r, "can assume", "sts")])), Some((true, vec![]))];
    let f = gen_privesc_findings(&g, &answers);
    assert_eq!(f.len(), 1);
    assert_eq!(f[0].title, format!("Privilege Escalation: user/A -> {}", r));
    assert_eq!(f[0].impact, "user/A can escalate to admin through 1 hop(s)");
    assert_eq!(
        f[0].description,
        format!("Principal user/A can reach admin principal {} through the following path:\n  {} can assume {}", r, a, r)
    );
    let no = vec![Some((false, vec![])), None];
    assert!(gen_privesc_findings(&g, &no).is_empty());
}

#[test]
fn all_findings_in_kind_order_and_report() {
    let g = graph(vec![admin_user("A", false), admin_role("Fn", "lambda.amazonaws.com", false)], vec![], vec![]);
    let answers = vec![None, None];
    let none = PathfindingMapper::new(vec![]);
    let f = gen_all_findings(&g, &answers, &none);
    let titles: Vec<&str> = f.iter().map(|x| x.title.as_str()).collect();
    assert_eq!(titles, vec!["Admin Users Without MFA", "Overprivileged Lambda Role: role/Fn"]);
    let report = gen_report(&g, &answers, &none);
    assert_eq!(report.account_id, "123456789012");
    assert_eq!(report.findings.len(), 2);
}

// ---------------------------------------------------------------- pathfinding

fn path(id: &str, perms: &[&str]) -> EscalationPath {
    EscalationPath {
        id: id.to_string(),
        name: format!("path {}", id),
        category: EscalationCategory::SelfEscalation,
        description: String::new(),
        recommendation: String::new(),
        permissions: strings(perms),
        services: strings(&["iam"]),
    }
}

#[test]
fn pathfinding_matches_full_paths_only() {
    let mapper = PathfindingMapper::new(vec![
        path("iam-001", &["iam:CreateAccessKey"]),
        path("none", &[]),
        path("iam-002", &["iam:PassRole", "lambda:CreateFunction"]),
    ]);
    assert_eq!(mapper.path_count(), 3);
    let user = node("arn:aws:iam::123456789012:user/U", vec![Policy::new("p", "p", allow(s("iam:*")))]);
    let m = mapper.check_node(&user);
    assert_eq!(m.len(), 1);
    assert_eq!(m[0].path.id, "iam-001");
    assert_eq!(m[0].node_name, "user/U");
    assert_eq!(m[0].matched_permissions, strings(&["iam:CreateAccessKey"]));
    assert!(m[0].full_match);

    let mut admin = admin_user("Root", true);
    admin.is_admin = true;
    let g = graph(vec![admin, user], vec![], vec![]);
    let all = mapper.check_graph(&g);
    assert_eq!(all.len(), 1);
    assert_eq!(all[0].node_arn, "arn:aws:iam::123456789012:user/U");
}

fn path_match(arn: &str, name: &str, p: EscalationPath) -> PathMatch {
    let perms = p.permissions.clone();
    PathMatch { path: p, node_arn: arn.to_string(), node_name: name.to_string(), matched_permissions: perms, full_match: true }
}

#[test]
fn pathfinding_findings_one_per_match_grouped_by_principal() {
    let mut p1 = path("iam-001", &["iam:CreateAccessKey"]);
    p1.description = "Create a key.".to_string();
    let mut p2 = path("lambda-001", &["iam:PassRole", "lambda:CreateFunction"]);
    p2.category = EscalationCategory::ExistingPassrole;
    p2.recommendation = "Limit PassRole.".to_string();
    let ms = vec![
        path_match("arn:u", "user/U", p1.copy()),
        path_match("arn:r", "role/R", p1.copy()),
        path_match("arn:u", "user/U2", p2),
    ];
    let f = gen_pathfinding_findings(&ms);
    assert_eq!(f.len(), 3);
    // the principal of arn:u comes first, with both of its matches, named as in its first match
    assert_eq!(f[0].title, "[iam-001] user/U — path iam-001");
    assert_eq!(f[1].title, "[lambda-001] user/U — path lambda-001");
    assert_eq!(f[2].title, "[iam-001] role/R — path iam-001");
    assert_eq!(f[0].severity, Severity::High);
    assert_eq!(f[1].severity, Severity::Medium);
    assert_eq!(f[0].impact, "user/U has permissions for privilege escalation path iam-001 (self-escalation)");
    assert_eq!(f[1].impact, "user/U has permissions for privilege escalation path lambda-001 (existing-passrole)");
    assert_eq!(
        f[0].description,
        "Create a key.\n\nMatched permissions: iam:CreateAccessKey\n\nPathfinding.cloud: https://pathfinding.cloud/paths/iam-001"
    );
    assert_eq!(
        f[0].recommendation,
        "Restrict access to: iam:CreateAccessKey. See https://pathfinding.cloud/paths/iam-001 for details."
    );
    assert_eq!(f[1].recommendation, "Limit PassRole.\n\nRef: https://pathfinding.cloud/paths/lambda-001");
    assert!(gen_pathfinding_findings(&vec![]).is_empty());
    assert_eq!(principal_arns(&ms), vec!["arn:u".to_string(), "arn:r".to_string()]);
    assert_eq!(category_name(EscalationCategory::CredentialAccess), "credential-access");
    assert_eq!(path("x-1", &[]).url(), "https://pathfinding.cloud/paths/x-1");
}

#[test]
fn all_findings_end_with_pathfinding_findings() {
    let user = node("arn:aws:iam::123456789012:user/U", vec![Policy::new("p", "p", allow(s("iam:*")))]);
    let g = graph(vec![user], vec![], vec![]);
    let mapper = PathfindingMapper::new(vec![path("iam-001", &["iam:CreateAccessKey"])]);
    let f = gen_all_findings(&g, &vec![None], &mapper);
    assert_eq!(f.last().map(|x| x.title.as_str()), Some("[iam-001] user/U — path iam-001"));
    let report = gen_report(&g, &vec![None], &mapper);
    assert_eq!(report.findings.last().map(|x| x.title.as_str()), Some("[iam-001] user/U — path iam-001"));
}

// ---------------------------------------------------------------- organizations

fn scp(id: &str) -> ServiceControlPolicy {
    ServiceControlPolicy { policy_id: id.to_string(), arn: format!("arn:aws:organizations::policy/{}", id), name: id.to_string(), policy_doc: allow(s("*")) }
}

fn org() -> OrganizationTree {
    let account = OrganizationAccount { account_id: "111".to_string(), account_name: "dev".to_string(), scps: strings(&["p-acct"]), tags: vec![] };
    let bare = OrganizationAccount { account_id: "222".to_string(), account_name: "bare".to_string(), scps: vec![], tags: vec![] };
    let child = OrganizationNode {
        ou_id: "ou-child".to_string(),
        ou_name: "child".to_string(),
        child_nodes: vec![],
        accounts: vec![account],
        scps: strings(&["p-child", "p-missing"]),
        tags: vec![],
    };
    let root = OrganizationNode {
        ou_id: "r-root".to_string(),
        ou_name: "root".to_string(),
        child_nodes: vec![child],
        accounts: vec![bare],
        scps: strings(&["p-unknown"]),
        tags: vec![],
    };
    OrganizationTree {
        org_id: "o-1".to_string(),
        management_account_id: "000".to_string(),
        root_ous: vec![root],
        all_scps: vec![scp("p-root"), scp("p-child"), scp("p-acct")],
        accounts: strings(&["111", "222"]),
        edge_list: vec![],
        metadata: OrgMetadata { iam_recon_version: "1.1.5".to_string(), extra: vec![] },
    }
}

#[test]
fn scps_for_account_walk_the_tree() {
    let t = org();
    let levels = t.get_scps_for_account("111");
    let ids: Vec<Vec<&str>> = levels.iter().map(|l| l.iter().map(|p| p.policy_id.as_str()).collect()).collect();
    // the root level names no known SCP and is left out
    assert_eq!(ids, vec![vec!["p-child"], vec!["p-acct"]]);
    assert!(t.get_scps_for_account("222").is_empty());
    assert!(t.get_scps_for_account("333").is_empty());
}

// ---------------------------------------------------------------- resource policies

#[test]
fn resource_policy_names() {
    let b = bucket_policy("my-bucket", JsonValue::Null);
    assert_eq!(b.arn, "arn:aws:s3:::my-bucket");
    assert_eq!(b.name, "my-bucket-policy");
    let t = topic_policy("arn:aws:sns:us-east-1:1:t", JsonValue::Null);
    assert_eq!(t.name, "arn:aws:sns:us-east-1:1:t-policy");
    assert_eq!(queue_policy(None, "https://q", JsonValue::Null).arn, "https://q");
    assert_eq!(queue_policy(Some("arn:aws:sqs:q"), "https://q", JsonValue::Null).arn, "arn:aws:sqs:q");
    assert_eq!(key_policy(None, "k-1", JsonValue::Null).arn, "k-1");
    assert_eq!(key_policy(None, "k-1", JsonValue::Null).name, "kms-key-policy");
    assert_eq!(secret_policy("arn:s", JsonValue::Null).name, "secrets-manager-policy");
}

// ---------------------------------------------------------------- policy listing

fn entry(name: &str, t: &str, attached: &str) -> PolicyIndexEntry {
    PolicyIndexEntry {
        arn: format!("arn:{}", name),
        name: name.to_string(),
        policy_type: t.to_string(),
        attached_to: attached.to_string(),
        filename: format!("{}.json", name),
    }
}

#[test]
fn policy_filters_ignore_case() {
    let index = PolicyIndex {
        account_id: "1".to_string(),
        total_policies: 3,
        entries: vec![
            entry("AdministratorAccess", "managed", "arn:aws:iam::1:user/Alice"),
            entry("ReadOnly", "managed", "arn:aws:iam::1:role/Reader"),
            entry("inline-admin", "inline-user", "arn:aws:iam::1:user/Bob"),
        ],
    };
    let names: Vec<&str> = filter_entries(&index, Some("ADMIN"), None, None).iter().map(|e| e.name.as_str()).collect();
    assert_eq!(names, vec!["AdministratorAccess", "inline-admin"]);
    let names: Vec<&str> = filter_entries(&index, Some("admin"), Some("Managed"), Some("alice")).iter().map(|e| e.name.as_str()).collect();
    assert_eq!(names, vec!["AdministratorAccess"]);
    assert_eq!(filter_entries(&index, None, None, None).len(), 3);
    assert!(!entry_matches(&index.entries[1], Some("admin"), None, None));
}

#[test]
fn policy_type_colours() {
    assert_eq!(type_label("managed", true), "\x1b[1;36mmanaged\x1b[0m");
    assert_eq!(type_label("trust", true), "\x1b[35mtrust\x1b[0m");
    assert_eq!(type_label("inline-role", true), "\x1b[33minline-role\x1b[0m");
    assert_eq!(type_label("other", true), "\x1b[90mother\x1b[0m");
    assert_eq!(type_label("trust", false), "trust");
}

// ---------------------------------------------------------------- context maps

#[test]
fn case_insensitive_lookup() {
    let mut m = CaseInsensitiveMap::new();
    m.insert("aws:PrincipalTag/Team", "a");
    m.insert("AWS:principaltag/team", "b");
    assert_eq!(m.get("aws:principaltag/TEAM"), Some(&strings(&["a", "b"])));
    m.insert_single("aws:principaltag/team", "c");
    assert_eq!(m.get_first("aws:PrincipalTag/Team"), Some("c"));
}
