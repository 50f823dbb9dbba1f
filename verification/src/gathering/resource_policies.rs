//! Resource policies of S3 buckets, SNS topics, SQS queues, KMS keys and
//! Secrets Manager secrets, named as the graph stores them.
use vstd::prelude::*;
use crate::json::JsonValue;
use crate::text::join2;
use crate::model::policy::Policy;

verus! {

/// The policy of an S3 bucket: ARN `arn:aws:s3:::<bucket>`, name `<bucket>-policy`.
pub fn bucket_policy(bucket: &str, doc: JsonValue) -> (r: Policy)
    ensures
        r.arn@ == "arn:aws:s3:::"@ + bucket@,
        r.name@ == bucket@ + "-policy"@,
        r.policy_doc == doc,
{
    let arn = join2("arn:aws:s3:::", bucket);
    let name = join2(bucket, "-policy");
    Policy::new(arn.as_str(), name.as_str(), doc)
}

/// The policy of an SNS topic: named `<topic arn>-policy`.
pub fn topic_policy(topic_arn: &str, doc: JsonValue) -> (r: Policy)
    ensures
        r.arn@ == topic_arn@,
        r.name@ == topic_arn@ + "-policy"@,
        r.policy_doc == doc,
{
    let name = join2(topic_arn, "-policy");
    Policy::new(topic_arn, name.as_str(), doc)
}

/// The policy of an SQS queue: under the queue's ARN where its attributes give
/// one, else under its URL; named `sqs-policy`.
pub fn queue_policy(queue_arn: Option<&str>, queue_url: &str, doc: JsonValue) -> (r: Policy)
    ensures
        r.arn@ == (match queue_arn { Some(a) => a@, None => queue_url@ }),
        r.name@ == "sqs-policy"@,
        r.policy_doc == doc,
{
    let arn = match queue_arn {
        Some(a) => a,
        None => queue_url,
    };
    Policy::new(arn, "sqs-policy", doc)
}

/// The default policy of a KMS key: under the key's ARN where listed, else its
/// id; named `kms-key-policy`.
pub fn key_policy(key_arn: Option<&str>, key_id: &str, doc: JsonValue) -> (r: Policy)
    ensures
        r.arn@ == (match key_arn { Some(a) => a@, None => key_id@ }),
        r.name@ == "kms-key-policy"@,
        r.policy_doc == doc,
{
    let arn = match key_arn {
        Some(a) => a,
        None => key_id,
    };
    Policy::new(arn, "kms-key-policy", doc)
}

/// The resource policy of a secret: named `secrets-manager-policy`.
pub fn secret_policy(secret_arn: &str, doc: JsonValue) -> (r: Policy)
    ensures
        r.arn@ == secret_arn@,
        r.name@ == "secrets-manager-policy"@,
        r.policy_doc == doc,
{
    Policy::new(secret_arn, "secrets-manager-policy", doc)
}

} // verus!
