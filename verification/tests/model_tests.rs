use std::sync::Arc;

use iam_recon::ci_map::CaseInsensitiveMap;
use iam_recon::cli::analysis::{csv_escape, format_csv, format_ocsf, ocsf_severity_id, text_report, wrap_text};
use iam_recon::model::group::Group;
use iam_recon::policy_eval::statement_match::has_matching_statement;
use iam_recon::cli::colors::{divider, edge_label, header, kv, node_name, severity_badge, stat, ColorState};
use iam_recon::edges::{iam, lambda, sts, CheckerKind};
use iam_recon::error::{aws_err, IamReconError};
use iam_recon::gathering::admin_check::update_admin_status;
use iam_recon::gathering::cache::{policy_file_name, sanitize_filename};
use iam_recon::gathering::{
    create_graph, decode_document, get_nodes_groups_and_policies, RawAttachedPolicy, RawGroupDetail, RawInlinePolicy,
    RawManagedPolicy, RawPolicyVersion, RawRoleDetail, RawUserDetail,
};
use iam_recon::json::{JsonField, JsonValue};
use iam_recon::model::edge::Edge;
use iam_recon::model::finding::{Finding, Severity};
use iam_recon::model::graph::{check_version, resolve_graph, Graph, GraphMetadata};
use iam_recon::model::node::Node;
use iam_recon::model::policy::Policy;
use iam_recon::model::query_result::QueryResult;
use iam_recon::model::report::{Report, Timestamp};
use iam_recon::policy_eval::authorization::{local_check_authorization, local_check_authorization_full};
use iam_recon::policy_eval::context_keys::{prepare_condition_context, prepare_mfa_context};
use iam_recon::policy_eval::resource_policy::{resource_policy_authorization, ResourcePolicyEvalResult};

fn s(x: &str) -> JsonValue {
    JsonValue::Str(x.to_string())
}

fn obj(fields: Vec<(&str, JsonValue)>) -> JsonValue {
    JsonValue::Object(fields.into_iter().map(|(k, v)| JsonField { key: k.to_string(), value: v }).collect())
}

fn arr(items: Vec<JsonValue>) -> JsonValue {
    JsonValue::Array(items)
}

fn statement(effect: &str, action: &str, resource: &str) -> JsonValue {
    obj(vec![("Effect", s(effect)), ("Action", s(action)), ("Resource", s(resource))])
}

fn doc(stmts: Vec<JsonValue>) -> JsonValue {
    obj(vec![("Statement", arr(stmts))])
}

fn node(arn: &str, policies: Vec<Policy>) -> Node {
    Node {
        arn: arn.to_string(),
        id_value: "AIDA0".to_string(),
        attached_policies: policies,
        group_memberships: vec![],
        trust_policy: None,
        instance_profile: None,
        active_password: false,
        access_keys: 0,
        is_admin: false,
        permissions_boundary: None,
        has_mfa: false,
        tags: vec![],
    }
}

fn metadata() -> GraphMetadata {
    GraphMetadata { account_id: "123456789012".to_string(), iam_recon_version: "1.1.5".to_string(), extra: vec![] }
}

// ---------------------------------------------------------------- graph

#[test]
fn graph_lookups_and_edges() {
    let a = "arn:aws:iam::123456789012:user/A";
    let b = "arn:aws:iam::123456789012:role/B";
    let g = Graph::new(
        vec![Arc::new(node(a, vec![])), Arc::new(node(b, vec![]))],
        vec![Edge::new(a, b, "r1", "STS"), Edge::new(b, a, "r2", "IAM"), Edge::new(a, b, "r3", "STS")],
        vec![],
        vec![],
        metadata(),
    );
    assert_eq!(g.get_node_by_arn(b).map(|n| n.arn.as_str()), Some(b));
    assert!(g.get_node_by_arn("arn:aws:iam::123456789012:user/Z").is_none());
    assert_eq!(g.get_node_by_searchable_name("user/A").map(|n| n.arn.as_str()), Some(a));
    let out: Vec<&str> = g.get_outbound_edges(&g.nodes[0]).iter().map(|e| e.reason.as_str()).collect();
    assert_eq!(out, vec!["r1", "r3"]);
    let inbound: Vec<&str> = g.get_inbound_edges(&g.nodes[0]).iter().map(|e| e.reason.as_str()).collect();
    assert_eq!(inbound, vec!["r2"]);
}

#[test]
fn version_check_compares_major_and_minor() {
    assert!(check_version("1.1.0").is_ok());
    assert!(check_version("1.1.5-beta").is_ok());
    assert!(check_version("1").is_ok());
    match check_version("1.2.0") {
        Err(IamReconError::VersionMismatch { stored, current }) => {
            assert_eq!(stored, "1.2.0");
            assert_eq!(current, "1.1.5");
        }
        _ => panic!("expected a version mismatch"),
    }
    assert!(check_version("2.1.5").is_err());
}

#[test]
fn aws_error_keeps_message() {
    match aws_err("throttled") {
        IamReconError::AwsSdk(m) => assert_eq!(m, "throttled"),
        _ => panic!("expected an SDK error"),
    }
}

// ---------------------------------------------------------------- query results

#[test]
fn query_result_text() {
    let a = Arc::new(node("arn:aws:iam::123456789012:user/A", vec![]));
    let denied = QueryResult::new_denied(a.clone());
    assert_eq!(denied.write_result("s3:GetObject", "*"), "user/A cannot call s3:GetObject with resource *\n");
    let direct = QueryResult::new_allowed(a.clone(), vec![]);
    assert_eq!(direct.write_result("s3:GetObject", "*"), "user/A can call s3:GetObject with resource *\n");
    let via = QueryResult::new_allowed(
        a,
        vec![Edge::new("arn:aws:iam::123456789012:user/A", "arn:aws:iam::123456789012:role/B", "A can assume B", "STS")],
    );
    assert_eq!(
        via.write_result("s3:GetObject", "*"),
        "user/A can access arn:aws:iam::123456789012:role/B and then call s3:GetObject with resource *\n"
    );
    let data = via.to_data();
    assert!(data.allowed);
    assert_eq!(data.edge_path, vec!["arn:aws:iam::123456789012:user/A A can assume B arn:aws:iam::123456789012:role/B".to_string()]);
}

// ---------------------------------------------------------------- cache

#[test]
fn cache_file_names() {
    assert_eq!(sanitize_filename("My Policy/v1.json"), "My_Policy_v1_json");
    assert_eq!(sanitize_filename("Äpfel-ok_1"), "Äpfel-ok_1");
    assert_eq!(sanitize_filename(&"x".repeat(70)).chars().count(), 60);
    assert_eq!(policy_file_name(3, "Read Only"), "0003_Read_Only.json");
    assert_eq!(policy_file_name(12345, "p"), "12345_p.json");
}

// ---------------------------------------------------------------- admin check

#[test]
fn admins_are_marked() {
    let admin = node("arn:aws:iam::123456789012:user/Admin", vec![Policy::new("p", "p", doc(vec![statement("Allow", "*", "*")]))]);
    let reader = node("arn:aws:iam::123456789012:user/Reader", vec![Policy::new("p", "p", doc(vec![statement("Allow", "s3:*", "*")]))]);
    let broad = node(
        "arn:aws:iam::123456789012:user/Broad",
        vec![Policy::new(
            "p",
            "p",
            doc(vec![
                statement("Allow", "iam:PutRolePolicy", "*"),
                statement("Allow", "s3:GetObject", "*"),
                statement("Allow", "ec2:RunInstances", "*"),
                statement("Allow", "lambda:InvokeFunction", "*"),
            ]),
        )],
    );
    let out = update_admin_status(vec![Arc::new(admin), Arc::new(reader), Arc::new(broad)]);
    let flags: Vec<bool> = out.iter().map(|n| n.is_admin).collect();
    assert_eq!(flags, vec![true, false, true]);
    assert_eq!(out[1].arn, "arn:aws:iam::123456789012:user/Reader");
}

// ---------------------------------------------------------------- edges

#[test]
fn iam_edge_for_access_key_creation() {
    let a = "arn:aws:iam::123456789012:user/A";
    let b = "arn:aws:iam::123456789012:user/B";
    let nodes = vec![
        Arc::new(node(a, vec![Policy::new("p", "p", doc(vec![statement("Allow", "iam:CreateAccessKey", "*")]))])),
        Arc::new(node(b, vec![])),
    ];
    let edges = iam::generate_edges(&nodes, None);
    assert_eq!(edges.len(), 1);
    assert_eq!(edges[0].source, a);
    assert_eq!(edges[0].destination, b);
    assert_eq!(edges[0].reason, "user/A can create access keys for user/B");
    assert_eq!(edges[0].short_reason, "IAM");
}

#[test]
fn sts_edge_for_trusted_principal() {
    let a = "arn:aws:iam::123456789012:user/A";
    let r = "arn:aws:iam::123456789012:role/R";
    let mut role = node(r, vec![]);
    role.trust_policy = Some(doc(vec![obj(vec![
        ("Effect", s("Allow")),
        ("Principal", obj(vec![("AWS", s(a))])),
        ("Action", s("sts:AssumeRole")),
    ])]));
    let nodes = vec![Arc::new(node(a, vec![])), Arc::new(role)];
    let edges = sts::generate_edges(&nodes, None);
    assert_eq!(edges.len(), 1);
    assert_eq!(edges[0].reason, "user/A can assume role/R");
    assert_eq!(edges[0].short_reason, "STS");
    // no edge leaves an admin, and none joins a principal to itself
    for e in &edges {
        assert_ne!(e.source, e.destination);
    }
}

#[test]
fn checker_names_round_trip() {
    for k in CheckerKind::all() {
        assert_eq!(CheckerKind::from_name(k.name()), Some(k));
        assert_eq!(CheckerKind::from_name(&k.name().to_uppercase()), Some(k));
    }
    assert_eq!(CheckerKind::from_name("unknown"), None);
}

// ---------------------------------------------------------------- gathering

fn managed(arn: &str, name: &str, d: JsonValue) -> RawManagedPolicy {
    RawManagedPolicy {
        arn: Some(arn.to_string()),
        name: Some(name.to_string()),
        versions: vec![RawPolicyVersion { is_default: false, document: None }, RawPolicyVersion { is_default: true, document: Some(d) }],
    }
}

#[test]
fn principals_groups_and_policies_are_built() {
    let read = "arn:aws:iam::aws:policy/Read";
    let groups = vec![RawGroupDetail {
        arn: Some("arn:aws:iam::123456789012:group/Devs".to_string()),
        inline_policies: vec![RawInlinePolicy { name: Some("g-inline".to_string()), document: Some(doc(vec![statement("Allow", "ec2:*", "*")])) }],
        attached_policies: vec![RawAttachedPolicy { arn: Some(read.to_string()), name: Some("Read".to_string()) }],
    }];
    let users = vec![RawUserDetail {
        arn: Some("arn:aws:iam::123456789012:user/Alice".to_string()),
        user_id: Some("AIDAALICE".to_string()),
        inline_policies: vec![],
        attached_policies: vec![
            RawAttachedPolicy { arn: Some(read.to_string()), name: Some("Read".to_string()) },
            RawAttachedPolicy { arn: Some("arn:aws:iam::aws:policy/Missing".to_string()), name: None },
        ],
        group_names: vec!["Devs".to_string(), "Nobody".to_string()],
        boundary_arn: Some(read.to_string()),
        tags: vec![],
    }];
    let roles = vec![RawRoleDetail {
        arn: Some("arn:aws:iam::123456789012:role/R".to_string()),
        role_id: Some("AROAR".to_string()),
        inline_policies: vec![RawInlinePolicy { name: Some("r-inline".to_string()), document: None }],
        attached_policies: vec![],
        trust_policy: None,
        instance_profiles: vec![],
        boundary_arn: None,
        tags: vec![],
    }];
    let managed_policies = vec![managed(read, "Read", doc(vec![statement("Allow", "s3:Get*", "*")]))];
    let (nodes, gs, ps) = get_nodes_groups_and_policies(&users, &roles, &groups, &managed_policies);
    assert_eq!(gs.len(), 1);
    assert_eq!(gs[0].attached_policies.len(), 2);
    assert_eq!(nodes.len(), 2);
    let alice = &nodes[0];
    assert_eq!(alice.id_value, "AIDAALICE");
    assert_eq!(alice.attached_policies.len(), 1);
    assert_eq!(alice.group_memberships.len(), 1);
    assert_eq!(alice.permissions_boundary.as_ref().map(|p| p.name.as_str()), Some("PermissionsBoundary"));
    assert_eq!(nodes[1].instance_profile, None);
    let names: Vec<&str> = ps.iter().map(|p| p.name.as_str()).collect();
    assert_eq!(names, vec!["Read", "g-inline"]);
}

#[test]
fn graph_created_from_details() {
    let managed_policies = vec![managed("arn:aws:iam::aws:policy/Admin", "Admin", doc(vec![statement("Allow", "*", "*")]))];
    let users = vec![
        RawUserDetail {
            arn: Some("arn:aws:iam::123456789012:user/Root".to_string()),
            user_id: None,
            inline_policies: vec![],
            attached_policies: vec![RawAttachedPolicy { arn: Some("arn:aws:iam::aws:policy/Admin".to_string()), name: Some("Admin".to_string()) }],
            group_names: vec![],
            boundary_arn: None,
            tags: vec![],
        },
        RawUserDetail {
            arn: Some("arn:aws:iam::123456789012:user/Plain".to_string()),
            user_id: None,
            inline_policies: vec![RawInlinePolicy {
                name: Some("keys".to_string()),
                document: Some(doc(vec![statement("Allow", "iam:CreateAccessKey", "*")])),
            }],
            attached_policies: vec![],
            group_names: vec![],
            boundary_arn: None,
            tags: vec![],
        },
    ];
    let g = create_graph("123456789012", &users, &vec![], &vec![], &managed_policies, &CheckerKind::all(), &[], &[], &[]);
    assert_eq!(g.metadata.account_id, "123456789012");
    assert_eq!(g.metadata.iam_recon_version, "1.1.5");
    assert!(g.nodes[0].is_admin);
    assert!(!g.nodes[1].is_admin);
    assert_eq!(g.edges.len(), 1);
    assert_eq!(g.edges[0].reason, "user/Plain can create access keys for user/Root");
}

#[test]
fn documents_are_percent_decoded() {
    assert_eq!(decode_document("%7B%22a%22%3A1%7D"), "{\"a\":1}");
    assert_eq!(decode_document("plain"), "plain");
    assert_eq!(decode_document("%FF"), "");
}

// ---------------------------------------------------------------- context and decisions

#[test]
fn user_keys_take_precedence_and_mfa_keys_are_set() {
    let n = node("arn:aws:iam::123456789012:user/Alice", vec![]);
    let mut user = CaseInsensitiveMap::new();
    user.insert_single("aws:username", "Mallory");
    let ctx = prepare_condition_context(&n, &user);
    assert_eq!(ctx.get_first("aws:username"), Some("Mallory"));
    assert_eq!(ctx.get_first("aws:PrincipalArn"), Some("arn:aws:iam::123456789012:user/Alice"));
    let mfa = prepare_mfa_context(&n, &CaseInsensitiveMap::new());
    assert_eq!(mfa.get_first("aws:MultiFactorAuthPresent"), Some("true"));
    assert_eq!(mfa.get_first("aws:MultiFactorAuthAge"), Some("1"));
    assert_eq!(mfa.get_first("aws:username"), Some("Alice"));
}

#[test]
fn boundary_must_also_allow() {
    let mut n = node("arn:aws:iam::123456789012:user/B", vec![Policy::new("p", "p", doc(vec![statement("Allow", "*", "*")]))]);
    n.permissions_boundary = Some(Policy::new("b", "b", doc(vec![statement("Allow", "s3:*", "*")])));
    let ctx = CaseInsensitiveMap::new();
    assert!(local_check_authorization(&n, "s3:GetObject", "*", &ctx));
    assert!(!local_check_authorization(&n, "iam:CreateUser", "*", &ctx));
}

#[test]
fn scp_deny_refuses_and_no_extras_is_local() {
    let n = node("arn:aws:iam::123456789012:user/B", vec![Policy::new("p", "p", doc(vec![statement("Allow", "*", "*")]))]);
    let ctx = CaseInsensitiveMap::new();
    let deny = Policy::new("scp", "scp", doc(vec![statement("Allow", "*", "*"), statement("Deny", "s3:*", "*")]));
    let groups = vec![vec![&deny]];
    assert!(!local_check_authorization_full(&n, "s3:GetObject", "*", &ctx, None, None, Some(groups.as_slice()), None));
    assert!(local_check_authorization_full(&n, "ec2:RunInstances", "*", &ctx, None, None, Some(groups.as_slice()), None));
    assert_eq!(
        local_check_authorization_full(&n, "s3:GetObject", "*", &ctx, None, None, None, None),
        local_check_authorization(&n, "s3:GetObject", "*", &ctx)
    );
}

#[test]
fn resource_policy_without_allow_grants_nothing() {
    let n = node("arn:aws:iam::123456789012:user/A", vec![]);
    let ctx = CaseInsensitiveMap::new();
    let only_deny = doc(vec![obj(vec![
        ("Effect", s("Deny")),
        ("Principal", s("*")),
        ("Action", s("s3:*")),
        ("Resource", s("*")),
    ])]);
    assert_eq!(resource_policy_authorization(&n, "123456789012", &only_deny, "s3:GetObject", "*", &ctx), ResourcePolicyEvalResult::DenyMatch);
    let unrelated = doc(vec![obj(vec![
        ("Effect", s("Allow")),
        ("Principal", obj(vec![("AWS", s("arn:aws:iam::999999999999:root"))])),
        ("Action", s("s3:*")),
    ])]);
    assert_eq!(resource_policy_authorization(&n, "123456789012", &unrelated, "s3:GetObject", "*", &ctx), ResourcePolicyEvalResult::NoMatch);
}

// ---------------------------------------------------------------- report formats

fn finding(title: &str, severity: Severity) -> Finding {
    Finding::new(title, severity, "impact, with comma", "say \"hi\"", "fix it")
}

#[test]
fn csv_quotes_where_needed() {
    assert_eq!(csv_escape("plain"), "plain");
    assert_eq!(csv_escape("a,b"), "\"a,b\"");
    assert_eq!(csv_escape("say \"hi\""), "\"say \"\"hi\"\"\"");
    assert_eq!(csv_escape("two\nlines"), "\"two\nlines\"");
    let report = Report::new_at("123456789012", vec![finding("T", Severity::High)], Timestamp { seconds: 0, nanos: 0 });
    assert_eq!(
        format_csv(&report),
        "severity,title,impact,description,recommendation\nHigh,T,\"impact, with comma\",\"say \"\"hi\"\"\",fix it\n"
    );
}

#[test]
fn ocsf_severity_and_shape() {
    assert_eq!(ocsf_severity_id(Severity::Low), 2);
    assert_eq!(ocsf_severity_id(Severity::Medium), 3);
    assert_eq!(ocsf_severity_id(Severity::High), 4);
    let report = Report::new_at("123456789012", vec![finding("T", Severity::Medium)], Timestamp { seconds: 1700000000, nanos: 0 });
    match format_ocsf(&report, "0.1.0") {
        JsonValue::Array(items) => {
            assert_eq!(items.len(), 1);
            assert_eq!(items[0].get("message").and_then(|m| m.as_str()), Some("T"));
            assert_eq!(items[0].get("severity").and_then(|m| m.as_str()), Some("Medium"));
            let uid = items[0].get("finding_info").and_then(|f| f.get("uid")).and_then(|u| u.as_str());
            assert_eq!(uid, Some("iam-recon-123456789012-1"));
        }
        _ => panic!("expected an array"),
    }
}

#[test]
fn text_is_wrapped_at_width() {
    assert_eq!(wrap_text("aaa bbb ccc", 7), vec!["aaa bbb".to_string(), "ccc".to_string()]);
    assert_eq!(wrap_text("one\n\ntwo", 80), vec!["one".to_string(), String::new(), "two".to_string()]);
    assert_eq!(wrap_text("  spaced   out  ", 80), vec!["spaced out".to_string()]);
}

#[test]
fn current_report_has_a_time() {
    let r = Report::new("1", vec![]);
    assert!(r.generated_at.seconds > 1_600_000_000);
    assert_eq!(r.description, "IAM Recon analysis report");
}

// ---------------------------------------------------------------- colours

#[test]
fn colour_helpers() {
    assert_eq!(severity_badge(Severity::High, true), "\x1b[1;31m[HIGH]\x1b[0m");
    assert_eq!(severity_badge(Severity::Low, false), "[LOW]");
    assert_eq!(kv("Key:", "v", false), "  Key:  v");
    assert_eq!(stat(42, true), "\x1b[1;36m42\x1b[0m");
    assert_eq!(node_name("role/R", false, false, true), "\x1b[35mrole/R\x1b[0m");
    assert_eq!(edge_label("STS", true), "\x1b[1;34mSTS\x1b[0m");
    assert_eq!(edge_label("Other", false), "Other");
    assert_eq!(header("Ab", false), "\n──────\n  Ab\n──────");
    assert_eq!(divider("x", false), format!("  x {}", "─".repeat(49)));
    let mut st = ColorState::new(true);
    st.set_compact(true);
    assert!(st.compact());
    assert!(!st.enabled());
}

#[test]
fn nothing_allowed_without_an_identity_allow() {
    let n = node("arn:aws:iam::123456789012:user/Empty", vec![]);
    let ctx = CaseInsensitiveMap::new();
    assert!(!local_check_authorization(&n, "s3:GetObject", "*", &ctx));
}

#[test]
fn group_policies_count_for_members() {
    let mut n = node("arn:aws:iam::123456789012:user/Member", vec![]);
    n.group_memberships = vec![Group::new(
        "arn:aws:iam::123456789012:group/Devs",
        vec![Policy::new("g", "g", doc(vec![statement("Allow", "ec2:*", "*")]))],
    )];
    let ctx = CaseInsensitiveMap::new();
    assert!(has_matching_statement(&n, "Allow", "ec2:RunInstances", "*", &ctx));
    assert!(local_check_authorization(&n, "ec2:RunInstances", "*", &ctx));
    assert_eq!(n.all_policies().len(), 1);
}

#[test]
fn text_report_shows_time_and_counts() {
    let report = Report::new_at(
        "123456789012",
        vec![finding("T1", Severity::High), finding("T2", Severity::Low)],
        Timestamp { seconds: 0, nanos: 0 },
    );
    let text = text_report(&report, false);
    assert!(text.contains("  Account:  123456789012"));
    assert!(text.contains("1970-01-01 00:00:00 UTC"));
    assert!(text.contains("[HIGH] T1"));
    assert!(text.contains("[LOW] T2"));
    let empty = Report::new_at("1", vec![], Timestamp { seconds: 0, nanos: 0 });
    assert!(text_report(&empty, false).contains("No findings."));
}

#[test]
fn stored_graph_reads_back() {
    let read = Policy::new("arn:aws:iam::aws:policy/Read", "Read", doc(vec![statement("Allow", "s3:Get*", "*")]));
    let group = Group::new("arn:aws:iam::123456789012:group/Devs", vec![Policy::new("arn:aws:iam::aws:policy/Read", "Read", doc(vec![statement("Allow", "s3:Get*", "*")]))]);
    let mut alice = node(
        "arn:aws:iam::123456789012:user/Alice",
        vec![Policy::new("arn:aws:iam::aws:policy/Read", "Read", doc(vec![statement("Allow", "s3:Get*", "*")]))],
    );
    alice.group_memberships = vec![Group::new("arn:aws:iam::123456789012:group/Devs", vec![])];
    alice.has_mfa = true;
    // a boundary that is not in the policy list is not found again
    alice.permissions_boundary = Some(Policy::new("arn:aws:iam::aws:policy/Read", "PermissionsBoundary", doc(vec![])));
    let nodes_data = vec![alice.to_data()];
    let groups_data = vec![group.to_data()];
    let g = resolve_graph(metadata(), vec![read], &groups_data, &nodes_data, vec![]);
    assert_eq!(g.groups.len(), 1);
    assert_eq!(g.groups[0].arn, "arn:aws:iam::123456789012:group/Devs");
    assert_eq!(g.groups[0].attached_policies.len(), 1);
    let n = &g.nodes[0];
    assert_eq!(n.arn, "arn:aws:iam::123456789012:user/Alice");
    assert_eq!(n.attached_policies.len(), 1);
    assert_eq!(n.attached_policies[0].name, "Read");
    assert_eq!(n.group_memberships.len(), 1);
    assert_eq!(n.group_memberships[0].attached_policies.len(), 1);
    assert!(n.has_mfa);
    assert!(n.permissions_boundary.is_none());
}

#[test]
fn query_result_printed_forms() {
    let a = Arc::new(node("arn:aws:iam::123456789012:user/A", vec![]));
    let via = QueryResult::new_allowed(
        a.clone(),
        vec![Edge::new("arn:aws:iam::123456789012:user/A", "arn:aws:iam::123456789012:role/B", "A can assume B", "STS")],
    );
    assert_eq!(via.print_text("s3:GetObject", "*", true, false), "ALLOW user/A s3:GetObject * via user/A->role/B[STS]\n");
    assert_eq!(
        via.print_text("s3:GetObject", "*", false, false),
        "  ALLOW user/A can access role/B through 1 hop(s):\n    user/A -> STS role/B\n    ...then role/B can call s3:GetObject with *\n"
    );
    let denied = QueryResult::new_denied(a);
    assert_eq!(denied.print_text("iam:CreateUser", "*", true, false), "DENY user/A iam:CreateUser *\n");
    assert_eq!(denied.print_text("iam:CreateUser", "*", false, true), "  \x1b[1;31mDENY \x1b[0m \x1b[36muser/A\x1b[0m cannot call \x1b[2miam:CreateUser\x1b[0m with \x1b[2m*\x1b[0m\n");
}

#[test]
fn iam_edges_one_per_pair_and_role_edge_follows_trust_update() {
    let a = "arn:aws:iam::123456789012:user/A";
    let b = "arn:aws:iam::123456789012:user/B";
    let r = "arn:aws:iam::123456789012:role/R";
    let nodes = vec![
        Arc::new(node(a, vec![Policy::new("p", "p", doc(vec![
            statement("Allow", "iam:CreateAccessKey", "*"),
            statement("Allow", "iam:CreateLoginProfile", "*"),
            statement("Allow", "iam:UpdateAssumeRolePolicy", "*"),
        ]))])),
        Arc::new(node(b, vec![])),
        Arc::new(node(r, vec![])),
    ];
    let edges = iam::generate_edges(&nodes, None);
    let ends: Vec<(&str, &str)> = edges.iter().map(|e| (e.source.as_str(), e.destination.as_str())).collect();
    assert_eq!(ends, vec![(a, b), (a, r)]);
    for e in &edges {
        assert_eq!(e.short_reason, "IAM");
    }
    assert_eq!(edges[1].reason, "user/A can update the trust policy of role/R");
    let empty = CaseInsensitiveMap::new();
    assert!(iam_recon::policy_eval::authorization::local_check_authorization_handling_mfa(&nodes[0], "iam:UpdateAssumeRolePolicy", r, &empty, None).0);
    assert!(!iam_recon::policy_eval::authorization::local_check_authorization_handling_mfa(&nodes[1], "iam:UpdateAssumeRolePolicy", r, &empty, None).0);
}

#[test]
fn lambda_edges_need_pass_role_and_invoke() {
    let a = "arn:aws:iam::123456789012:user/A";
    let r = "arn:aws:iam::123456789012:role/Fn";
    let mut role = node(r, vec![]);
    role.trust_policy = Some(doc(vec![obj(vec![
        ("Effect", s("Allow")),
        ("Principal", obj(vec![("Service", s("lambda.amazonaws.com"))])),
        ("Action", s("sts:AssumeRole")),
    ])]));
    let full = node(a, vec![Policy::new("p", "p", doc(vec![
        statement("Allow", "iam:PassRole", "*"),
        statement("Allow", "lambda:CreateFunction", "*"),
        statement("Allow", "lambda:InvokeFunction", "*"),
    ]))]);
    let nodes = vec![Arc::new(full), Arc::new(role.copy_with_admin(false))];
    let edges = lambda::generate_edges_locally(&nodes, &[], None);
    assert_eq!(edges.len(), 1);
    assert_eq!(edges[0].source, a);
    assert_eq!(edges[0].destination, r);
    assert_eq!(edges[0].short_reason, "Lambda");
    assert_eq!(edges[0].reason, "user/A can create a Lambda function with role/Fn and invoke it");
    let no_invoke = node(a, vec![Policy::new("p", "p", doc(vec![
        statement("Allow", "iam:PassRole", "*"),
        statement("Allow", "lambda:CreateFunction", "*"),
    ]))]);
    let nodes = vec![Arc::new(no_invoke), Arc::new(role)];
    assert!(lambda::generate_edges_locally(&nodes, &[], None).is_empty());
}
