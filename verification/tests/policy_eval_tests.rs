use iam_recon::ci_map::CaseInsensitiveMap;
use iam_recon::json::{JsonField, JsonValue};
use iam_recon::model::node::Node;
use iam_recon::model::policy::Policy;
use iam_recon::policy_eval::authorization::{local_check_authorization, local_check_authorization_full, local_check_authorization_handling_mfa};
use iam_recon::policy_eval::context_keys::prepare_mfa_context;
use iam_recon::policy_eval::condition::arn_ops::{self, ArnOp};
use iam_recon::policy_eval::condition::binary_ops;
use iam_recon::policy_eval::condition::bool_ops;
use iam_recon::policy_eval::condition::date_ops::{self, DateOp};
use iam_recon::policy_eval::condition::evaluate_condition_block;
use iam_recon::policy_eval::condition::ip_ops;
use iam_recon::policy_eval::condition::null_ops::evaluate_null;
use iam_recon::policy_eval::condition::numeric_ops::{self, NumericOp};
use iam_recon::policy_eval::condition::string_ops::{self, StringOp};
use iam_recon::policy_eval::resource_policy::{resource_policy_authorization, service_can_assume_role, ResourcePolicyEvalResult};
use iam_recon::policy_eval::statement_match::{has_matching_statement, policy_has_matching_statement};
use iam_recon::policy_eval::wildcard::expand_variables;
use iam_recon::policy_eval::wildcard;

fn s(x: &str) -> JsonValue {
    JsonValue::Str(x.to_string())
}

fn obj(fields: Vec<(&str, JsonValue)>) -> JsonValue {
    JsonValue::Object(fields.into_iter().map(|(k, v)| JsonField { key: k.to_string(), value: v }).collect())
}

fn arr(items: Vec<JsonValue>) -> JsonValue {
    JsonValue::Array(items)
}

fn strings(v: &[&str]) -> Vec<String> {
    v.iter().map(|x| x.to_string()).collect()
}

fn node_with(arn: &str, id: &str, policies: Vec<Policy>) -> Node {
    Node {
        arn: arn.to_string(),
        id_value: id.to_string(),
        attached_policies: policies,
        group_memberships: vec![],
        trust_policy: None,
        instance_profile: None,
        active_password: false,
        access_keys: 0,
        is_admin: false,
        permissions_boundary: None,
        has_mfa: false,
        tags: vec![],
    }
}

fn admin_node() -> Node {
    let mut n = node_with(
        "arn:aws:iam::123456789012:user/Admin",
        "AIDA00000000000000001",
        vec![Policy::new(
            "arn:aws:iam::aws:policy/AdministratorAccess",
            "AdministratorAccess",
            obj(vec![("Statement", arr(vec![obj(vec![("Effect", s("Allow")), ("Action", s("*")), ("Resource", s("*"))])]))]),
        )],
    );
    n.active_password = true;
    n.access_keys = 1;
    n.is_admin = true;
    n.has_mfa = true;
    n
}

#[test]
fn test_admin_allowed() {
    let node = admin_node();
    let ctx = CaseInsensitiveMap::new();
    assert!(local_check_authorization(&node, "iam:CreateUser", "*", &ctx));
    assert!(local_check_authorization(&node, "s3:GetObject", "arn:aws:s3:::any-bucket/key", &ctx));
}

#[test]
fn test_explicit_deny_overrides() {
    let node = node_with(
        "arn:aws:iam::123456789012:user/Test",
        "AIDA00000000000000002",
        vec![
            Policy::new(
                "p1",
                "allow-all",
                obj(vec![("Statement", arr(vec![obj(vec![("Effect", s("Allow")), ("Action", s("*")), ("Resource", s("*"))])]))]),
            ),
            Policy::new(
                "p2",
                "deny-delete",
                obj(vec![("Statement", arr(vec![obj(vec![("Effect", s("Deny")), ("Action", s("s3:DeleteBucket")), ("Resource", s("*"))])]))]),
            ),
        ],
    );
    let ctx = CaseInsensitiveMap::new();
    assert!(local_check_authorization(&node, "s3:GetObject", "*", &ctx));
    assert!(!local_check_authorization(&node, "s3:DeleteBucket", "*", &ctx));
}

#[test]
fn test_mfa_handling() {
    let mut node = node_with(
        "arn:aws:iam::123456789012:user/MfaUser",
        "AIDA00000000000000003",
        vec![Policy::new(
            "p1",
            "mfa-only",
            obj(vec![(
                "Statement",
                arr(vec![obj(vec![
                    ("Effect", s("Allow")),
                    ("Action", s("iam:*")),
                    ("Resource", s("*")),
                    ("Condition", obj(vec![("Bool", obj(vec![("aws:MultiFactorAuthPresent", s("true"))]))])),
                ])]),
            )]),
        )],
    );
    node.active_password = true;
    node.access_keys = 1;
    node.has_mfa = true;
    let ctx = CaseInsensitiveMap::new();
    let (auth, mfa_needed) = local_check_authorization_handling_mfa(&node, "iam:GetUser", "*", &ctx, None);
    assert!(auth);
    assert!(mfa_needed);
}

#[test]
fn test_arn_equals() {
    assert!(arn_ops::evaluate(
        &strings(&["arn:aws:iam::123456789012:user/Alice"]),
        &strings(&["arn:aws:iam::123456789012:user/Alice"]),
        ArnOp::Equals,
    ));
}

#[test]
fn test_arn_like_wildcard() {
    assert!(arn_ops::evaluate(
        &strings(&["arn:aws:iam::123456789012:user/Alice"]),
        &strings(&["arn:aws:iam::123456789012:user/*"]),
        ArnOp::Like,
    ));
}

#[test]
fn test_arn_not_like() {
    assert!(arn_ops::evaluate(
        &strings(&["arn:aws:iam::123456789012:role/Admin"]),
        &strings(&["arn:aws:iam::123456789012:user/*"]),
        ArnOp::NotLike,
    ));
}

#[test]
fn test_binary_equals() {
    assert!(binary_ops::evaluate(&strings(&["abc"]), &strings(&["abc"])));
    assert!(!binary_ops::evaluate(&strings(&["ABC"]), &strings(&["abc"])));
}

#[test]
fn test_bool_match() {
    assert!(bool_ops::evaluate(&strings(&["true"]), &strings(&["true"])));
    assert!(bool_ops::evaluate(&strings(&["True"]), &strings(&["true"])));
    assert!(!bool_ops::evaluate(&strings(&["false"]), &strings(&["true"])));
}

#[test]
fn test_bool_false() {
    assert!(bool_ops::evaluate(&strings(&["false"]), &strings(&["false"])));
    assert!(bool_ops::evaluate(&strings(&["anything"]), &strings(&["false"])));
}

#[test]
fn test_date_equals_rfc3339() {
    assert!(date_ops::evaluate(&strings(&["2023-01-01T00:00:00Z"]), &strings(&["2023-01-01T00:00:00Z"]), DateOp::Equals));
}

#[test]
fn test_date_less_than() {
    assert!(date_ops::evaluate(&strings(&["2022-01-01T00:00:00Z"]), &strings(&["2023-01-01T00:00:00Z"]), DateOp::LessThan));
}

#[test]
fn test_date_epoch() {
    // 2023-01-01T00:00:00Z = 1672531200
    assert!(date_ops::evaluate(&strings(&["1672531200"]), &strings(&["2023-01-01T00:00:00Z"]), DateOp::Equals));
}

#[test]
fn test_ip_in_cidr() {
    assert!(ip_ops::evaluate(&strings(&["10.0.1.5"]), &strings(&["10.0.0.0/8"]), false));
    assert!(!ip_ops::evaluate(&strings(&["192.168.1.1"]), &strings(&["10.0.0.0/8"]), false));
}

#[test]
fn test_not_ip_address() {
    assert!(ip_ops::evaluate(&strings(&["192.168.1.1"]), &strings(&["10.0.0.0/8"]), true));
    assert!(!ip_ops::evaluate(&strings(&["10.0.1.5"]), &strings(&["10.0.0.0/8"]), true));
}

#[test]
fn test_exact_ip() {
    assert!(ip_ops::evaluate(&strings(&["10.0.0.1"]), &strings(&["10.0.0.1"]), false));
}

#[test]
fn test_string_equals_condition() {
    let condition = obj(vec![("StringEquals", obj(vec![("aws:PrincipalTag/team", s("engineering"))]))]);
    let mut ctx = CaseInsensitiveMap::new();
    ctx.insert_single("aws:PrincipalTag/team", "engineering");
    assert!(evaluate_condition_block(&condition, &ctx));

    ctx = CaseInsensitiveMap::new();
    ctx.insert_single("aws:PrincipalTag/team", "marketing");
    assert!(!evaluate_condition_block(&condition, &ctx));
}

#[test]
fn test_if_exists_missing_key() {
    let condition = obj(vec![("StringEqualsIfExists", obj(vec![("aws:PrincipalTag/team", s("engineering"))]))]);
    let ctx = CaseInsensitiveMap::new();
    // Key is missing, IfExists means condition is satisfied
    assert!(evaluate_condition_block(&condition, &ctx));
}

#[test]
fn test_for_any_value() {
    let condition = obj(vec![(
        "ForAnyValue:StringEquals",
        obj(vec![("aws:PrincipalTag/team", arr(vec![s("engineering"), s("platform")]))]),
    )]);
    let mut ctx = CaseInsensitiveMap::new();
    ctx.insert("aws:PrincipalTag/team", "engineering");
    ctx.insert("aws:PrincipalTag/team", "marketing");
    assert!(evaluate_condition_block(&condition, &ctx));
}

#[test]
fn test_empty_condition_block() {
    let condition = obj(vec![]);
    let ctx = CaseInsensitiveMap::new();
    assert!(evaluate_condition_block(&condition, &ctx));
}

#[test]
fn test_null_key_absent() {
    // Key is absent, policy expects null (true) -> match
    assert!(evaluate_null(None, &strings(&["true"])));
    // Key is absent, policy expects not-null (false) -> no match
    assert!(!evaluate_null(None, &strings(&["false"])));
}

#[test]
fn test_null_key_present() {
    let vals = strings(&["some-value"]);
    // Key is present, policy expects null (true) -> no match
    assert!(!evaluate_null(Some(vals.as_slice()), &strings(&["true"])));
    // Key is present, policy expects not-null (false) -> match
    assert!(evaluate_null(Some(vals.as_slice()), &strings(&["false"])));
}

#[test]
fn test_numeric_equals() {
    assert!(numeric_ops::evaluate(&strings(&["42"]), &strings(&["42"]), NumericOp::Equals));
    assert!(!numeric_ops::evaluate(&strings(&["42"]), &strings(&["43"]), NumericOp::Equals));
}

#[test]
fn test_numeric_less_than() {
    assert!(numeric_ops::evaluate(&strings(&["5"]), &strings(&["10"]), NumericOp::LessThan));
    assert!(!numeric_ops::evaluate(&strings(&["10"]), &strings(&["5"]), NumericOp::LessThan));
}

#[test]
fn test_numeric_float() {
    assert!(numeric_ops::evaluate(&strings(&["3.14"]), &strings(&["3.14"]), NumericOp::Equals));
}

#[test]
fn test_string_equals() {
    assert!(string_ops::evaluate(&strings(&["foo"]), &strings(&["foo"]), StringOp::Equals));
    assert!(!string_ops::evaluate(&strings(&["foo"]), &strings(&["bar"]), StringOp::Equals));
}

#[test]
fn test_string_like_wildcard() {
    assert!(string_ops::evaluate(&strings(&["s3:GetObject"]), &strings(&["s3:*"]), StringOp::Like));
    assert!(!string_ops::evaluate(&strings(&["ec2:RunInstances"]), &strings(&["s3:*"]), StringOp::Like));
}

#[test]
fn test_string_not_equals() {
    assert!(string_ops::evaluate(&strings(&["foo"]), &strings(&["bar"]), StringOp::NotEquals));
    assert!(!string_ops::evaluate(&strings(&["foo"]), &strings(&["foo"]), StringOp::NotEquals));
}

#[test]
fn test_ignore_case() {
    assert!(string_ops::evaluate(&strings(&["FOO"]), &strings(&["foo"]), StringOp::EqualsIgnoreCase));
    assert!(!string_ops::evaluate(&strings(&["FOO"]), &strings(&["bar"]), StringOp::EqualsIgnoreCase));
}

fn test_node(arn: &str) -> Node {
    node_with(arn, "AIDA00000000000000000", vec![])
}

fn assume_statement(effect: &str, principal: JsonValue) -> JsonValue {
    obj(vec![("Effect", s(effect)), ("Principal", principal), ("Action", s("sts:AssumeRole"))])
}

#[test]
fn test_trust_policy_same_account() {
    let trust = obj(vec![(
        "Statement",
        arr(vec![assume_statement("Allow", obj(vec![("AWS", s("arn:aws:iam::123456789012:root"))]))]),
    )]);
    let node = test_node("arn:aws:iam::123456789012:user/Alice");
    let ctx = CaseInsensitiveMap::new();
    let result = resource_policy_authorization(&node, "123456789012", &trust, "sts:AssumeRole", "*", &ctx);
    assert_eq!(result, ResourcePolicyEvalResult::RootMatch);
}

#[test]
fn test_trust_policy_specific_principal() {
    let trust = obj(vec![(
        "Statement",
        arr(vec![assume_statement("Allow", obj(vec![("AWS", s("arn:aws:iam::123456789012:user/Alice"))]))]),
    )]);
    let node = test_node("arn:aws:iam::123456789012:user/Alice");
    let ctx = CaseInsensitiveMap::new();
    let result = resource_policy_authorization(&node, "123456789012", &trust, "sts:AssumeRole", "*", &ctx);
    assert_eq!(result, ResourcePolicyEvalResult::NodeMatch);
}

#[test]
fn test_trust_policy_deny() {
    let trust = obj(vec![(
        "Statement",
        arr(vec![
            assume_statement("Allow", obj(vec![("AWS", s("*"))])),
            assume_statement("Deny", obj(vec![("AWS", s("arn:aws:iam::123456789012:user/Alice"))])),
        ]),
    )]);
    let node = test_node("arn:aws:iam::123456789012:user/Alice");
    let ctx = CaseInsensitiveMap::new();
    let result = resource_policy_authorization(&node, "123456789012", &trust, "sts:AssumeRole", "*", &ctx);
    assert_eq!(result, ResourcePolicyEvalResult::DenyMatch);
}

#[test]
fn test_service_can_assume() {
    let trust = obj(vec![(
        "Statement",
        arr(vec![assume_statement("Allow", obj(vec![("Service", s("lambda.amazonaws.com"))]))]),
    )]);
    assert!(service_can_assume_role(&trust, "lambda.amazonaws.com"));
    assert!(!service_can_assume_role(&trust, "ec2.amazonaws.com"));
}

fn make_policy(doc: JsonValue) -> Policy {
    Policy::new("arn:aws:iam::123456789012:policy/test", "test", doc)
}

fn make_node(policies: Vec<Policy>) -> Node {
    node_with("arn:aws:iam::123456789012:user/TestUser", "AIDA00000000000000000", policies)
}

fn one_statement(fields: Vec<(&str, JsonValue)>) -> JsonValue {
    obj(vec![("Statement", arr(vec![obj(fields)]))])
}

#[test]
fn test_simple_allow() {
    let policy = make_policy(obj(vec![
        ("Version", s("2012-10-17")),
        ("Statement", arr(vec![obj(vec![("Effect", s("Allow")), ("Action", s("s3:GetObject")), ("Resource", s("*"))])])),
    ]));
    let ctx = CaseInsensitiveMap::new();
    assert!(policy_has_matching_statement(&policy, "Allow", "s3:GetObject", "*", &ctx));
    assert!(!policy_has_matching_statement(&policy, "Allow", "s3:PutObject", "*", &ctx));
}

#[test]
fn test_wildcard_action() {
    let policy = make_policy(one_statement(vec![("Effect", s("Allow")), ("Action", s("s3:*")), ("Resource", s("*"))]));
    let ctx = CaseInsensitiveMap::new();
    assert!(policy_has_matching_statement(&policy, "Allow", "s3:GetObject", "*", &ctx));
    assert!(policy_has_matching_statement(&policy, "Allow", "s3:PutObject", "*", &ctx));
    assert!(!policy_has_matching_statement(&policy, "Allow", "ec2:RunInstances", "*", &ctx));
}

#[test]
fn test_not_action() {
    let policy = make_policy(one_statement(vec![("Effect", s("Allow")), ("NotAction", s("iam:*")), ("Resource", s("*"))]));
    let ctx = CaseInsensitiveMap::new();
    assert!(policy_has_matching_statement(&policy, "Allow", "s3:GetObject", "*", &ctx));
    assert!(!policy_has_matching_statement(&policy, "Allow", "iam:GetUser", "*", &ctx));
}

#[test]
fn test_deny_statement() {
    let policy = make_policy(one_statement(vec![("Effect", s("Deny")), ("Action", s("s3:DeleteBucket")), ("Resource", s("*"))]));
    let ctx = CaseInsensitiveMap::new();
    assert!(policy_has_matching_statement(&policy, "Deny", "s3:DeleteBucket", "*", &ctx));
    assert!(!policy_has_matching_statement(&policy, "Allow", "s3:DeleteBucket", "*", &ctx));
}

#[test]
fn test_has_matching_statement_with_node() {
    let policy = make_policy(one_statement(vec![("Effect", s("Allow")), ("Action", s("*")), ("Resource", s("*"))]));
    let node = make_node(vec![policy]);
    let ctx = CaseInsensitiveMap::new();
    assert!(has_matching_statement(&node, "Allow", "anything:anything", "*", &ctx));
}

#[test]
fn test_resource_specific() {
    let policy = make_policy(one_statement(vec![
        ("Effect", s("Allow")),
        ("Action", s("s3:GetObject")),
        ("Resource", s("arn:aws:s3:::my-bucket/*")),
    ]));
    let ctx = CaseInsensitiveMap::new();
    assert!(policy_has_matching_statement(&policy, "Allow", "s3:GetObject", "arn:aws:s3:::my-bucket/key", &ctx));
    assert!(!policy_has_matching_statement(&policy, "Allow", "s3:GetObject", "arn:aws:s3:::other-bucket/key", &ctx));
}

#[test]
fn test_condition_in_statement() {
    let policy = make_policy(one_statement(vec![
        ("Effect", s("Allow")),
        ("Action", s("s3:GetObject")),
        ("Resource", s("*")),
        ("Condition", obj(vec![("IpAddress", obj(vec![("aws:SourceIp", s("10.0.0.0/8"))]))])),
    ]));
    let mut ctx = CaseInsensitiveMap::new();
    ctx.insert_single("aws:SourceIp", "10.0.1.5");
    assert!(policy_has_matching_statement(&policy, "Allow", "s3:GetObject", "*", &ctx));

    let mut ctx2 = CaseInsensitiveMap::new();
    ctx2.insert_single("aws:SourceIp", "192.168.1.1");
    assert!(!policy_has_matching_statement(&policy, "Allow", "s3:GetObject", "*", &ctx2));
}

#[test]
fn test_exact_match() {
    assert!(wildcard::matches("iam:GetUser", "iam:GetUser"));
    assert!(wildcard::matches("iam:GetUser", "IAM:GETUSER")); // case insensitive
}

#[test]
fn test_star_wildcard() {
    assert!(wildcard::matches("iam:*", "iam:GetUser"));
    assert!(wildcard::matches("*", "anything"));
    assert!(wildcard::matches("s3:Get*", "s3:GetObject"));
    assert!(!wildcard::matches("s3:Get*", "s3:PutObject"));
}

#[test]
fn test_question_wildcard() {
    assert!(wildcard::matches("s3:Get?bject", "s3:GetObject"));
    assert!(!wildcard::matches("s3:Get?bject", "s3:GetXXbject"));
}

#[test]
fn test_arn_pattern() {
    assert!(wildcard::matches("arn:aws:s3:::my-bucket/*", "arn:aws:s3:::my-bucket/some/key"));
    assert!(!wildcard::matches("arn:aws:s3:::my-bucket/*", "arn:aws:s3:::other-bucket/key"));
}

#[test]
fn test_special_chars() {
    assert!(wildcard::matches("my.bucket", "my.bucket"));
    assert!(!wildcard::matches("my.bucket", "myXbucket")); // . is escaped, not regex .
}

#[test]
fn test_expand_variables() {
    let mut ctx = CaseInsensitiveMap::new();
    ctx.insert_single("aws:username", "Alice");
    let result = expand_variables("arn:aws:s3:::${aws:username}/*", &ctx);
    assert_eq!(result, "arn:aws:s3:::Alice/*");
}

#[test]
fn wildcards_take_line_breaks() {
    assert!(wildcard::matches("*", "a\nb"));
    assert!(wildcard::matches("a?b", "a\nb"));
    assert!(wildcard::matches("line*end", "line one\nline two end"));
    assert!(!wildcard::matches("a?b", "a\n\nb"));
}

#[test]
fn condition_blocks_split_by_operator_and_key() {
    let mut ctx = CaseInsensitiveMap::new();
    ctx.insert_single("aws:RequestedRegion", "eu-west-1");
    ctx.insert_single("s3:prefix", "home/");
    let both = obj(vec![("StringEquals", obj(vec![("aws:RequestedRegion", s("eu-west-1")), ("s3:prefix", s("home/"))]))]);
    let region = obj(vec![("StringEquals", obj(vec![("aws:RequestedRegion", s("eu-west-1"))]))]);
    let prefix = obj(vec![("StringEquals", obj(vec![("s3:prefix", s("home/"))]))]);
    assert!(evaluate_condition_block(&both, &ctx));
    assert!(evaluate_condition_block(&region, &ctx) && evaluate_condition_block(&prefix, &ctx));
    let wrong = obj(vec![("StringEquals", obj(vec![("aws:RequestedRegion", s("eu-west-1")), ("s3:prefix", s("tmp/"))]))]);
    assert!(!evaluate_condition_block(&wrong, &ctx));
    let two_ops = obj(vec![
        ("StringEquals", obj(vec![("aws:RequestedRegion", s("eu-west-1"))])),
        ("StringLike", obj(vec![("s3:prefix", s("tmp/*"))])),
    ]);
    assert!(!evaluate_condition_block(&two_ops, &ctx));
    assert!(evaluate_condition_block(&obj(vec![]), &ctx));
    assert!(evaluate_condition_block(&s("not a block"), &ctx));
}

#[test]
fn string_equals_list_holds_for_either_value() {
    let mut ctx = CaseInsensitiveMap::new();
    ctx.insert_single("aws:RequestedRegion", "eu-west-1");
    let list = obj(vec![("StringEquals", obj(vec![("aws:RequestedRegion", arr(vec![s("us-east-1"), s("eu-west-1")]))]))]);
    let first = obj(vec![("StringEquals", obj(vec![("aws:RequestedRegion", s("us-east-1"))]))]);
    let second = obj(vec![("StringEquals", obj(vec![("aws:RequestedRegion", s("eu-west-1"))]))]);
    assert!(evaluate_condition_block(&list, &ctx));
    assert!(!evaluate_condition_block(&first, &ctx));
    assert!(evaluate_condition_block(&second, &ctx));
    let neither = obj(vec![("StringEquals", obj(vec![("aws:RequestedRegion", arr(vec![s("us-east-1"), s("ap-south-1")]))]))]);
    assert!(!evaluate_condition_block(&neither, &ctx));
}

#[test]
fn mfa_handling_is_two_full_checks() {
    let mut node = node_with(
        "arn:aws:iam::123456789012:user/MfaUser",
        "AIDA00000000000000003",
        vec![Policy::new(
            "p1",
            "mfa-only",
            obj(vec![(
                "Statement",
                arr(vec![obj(vec![
                    ("Effect", s("Allow")),
                    ("Action", s("iam:*")),
                    ("Resource", s("*")),
                    ("Condition", obj(vec![("Bool", obj(vec![("aws:MultiFactorAuthPresent", s("true"))]))])),
                ])]),
            )]),
        )],
    );
    node.has_mfa = true;
    let ctx = CaseInsensitiveMap::new();
    let plain = local_check_authorization_full(&node, "iam:GetUser", "*", &ctx, None, None, None, None);
    let mfa_ctx = prepare_mfa_context(&node, &ctx);
    let with_mfa = local_check_authorization_full(&node, "iam:GetUser", "*", &mfa_ctx, None, None, None, None);
    assert!(!plain);
    assert!(with_mfa);
    assert_eq!(local_check_authorization_handling_mfa(&node, "iam:GetUser", "*", &ctx, None), (true, true));
    // without an MFA device the second check is not made
    node.has_mfa = false;
    assert_eq!(local_check_authorization_handling_mfa(&node, "iam:GetUser", "*", &ctx, None), (false, false));
    // nothing allowed: refused either way
    assert_eq!(local_check_authorization_handling_mfa(&node, "s3:GetObject", "*", &ctx, None), (false, false));
}

#[test]
fn epoch_dates_within_the_calendar_range() {
    assert_eq!(date_ops::parse_date("1672531200.1"), Some((1672531200, 100000000)));
    assert_eq!(date_ops::parse_date("8210266876799"), Some((8210266876799, 0)));
    assert_eq!(date_ops::parse_date("8210266876800"), None);
    assert_eq!(date_ops::parse_date("-8334601228800"), Some((-8334601228800, 0)));
    assert_eq!(date_ops::parse_date("-8334601228801"), None);
    assert_eq!(date_ops::parse_date("NaN"), None);
}

#[test]
fn current_time_key_is_the_clock_reading() {
    let node = node_with(
        "arn:aws:iam::123456789012:user/Timed",
        "AIDA00000000000000009",
        vec![Policy::new(
            "p1",
            "after-2000",
            obj(vec![(
                "Statement",
                arr(vec![obj(vec![
                    ("Effect", s("Allow")),
                    ("Action", s("s3:GetObject")),
                    ("Resource", s("*")),
                    ("Condition", obj(vec![
                        ("DateGreaterThan", obj(vec![("aws:CurrentTime", s("2000-01-01T00:00:00Z"))])),
                        ("NumericGreaterThan", obj(vec![("aws:EpochTime", s("946684800"))])),
                    ])),
                ])]),
            )]),
        )],
    );
    let ctx = CaseInsensitiveMap::new();
    assert!(local_check_authorization(&node, "s3:GetObject", "*", &ctx));
    assert!(local_check_authorization_full(&node, "s3:GetObject", "*", &ctx, None, None, None, None));
}
