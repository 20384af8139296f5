//! The diff of a checkout, as the daemon keeps it up to date.
use crate::json::{Json, JsonModel, ObjectBuilder};
use vstd::prelude::*;

verus! {

/// One line of a hunk.
#[derive(Clone, Debug, PartialEq, Eq)]
pub struct DiffLine {
    pub kind: String,
    pub content: String,
}

/// A run of lines of one file.
#[derive(Clone, Debug, PartialEq, Eq)]
pub struct DiffHunk {
    pub old_start: u32,
    pub old_count: u32,
    pub new_start: u32,
    pub new_count: u32,
    pub lines: Vec<DiffLine>,
}

/// What changed in one file.
#[derive(Clone, Debug, PartialEq, Eq)]
pub struct DiffFile {
    pub path: String,
    pub is_new: bool,
    pub is_deleted: bool,
    pub additions: u32,
    pub deletions: u32,
    pub hunks: Vec<DiffHunk>,
    pub status: Option<String>,
}

/// Why there is no diff.
#[derive(Clone, Debug, PartialEq, Eq)]
pub struct CheckoutError {
    pub code: String,
    pub message: String,
}

/// The diff of a checkout.
#[derive(Clone, Debug, PartialEq, Eq)]
pub struct CheckoutDiff {
    pub subscription_id: String,
    pub cwd: String,
    pub files: Vec<DiffFile>,
    pub error: Option<CheckoutError>,
}

impl Default for CheckoutDiff {
    /// The diff that nothing is known of.
    fn default() -> (r: CheckoutDiff)
        ensures
            r.subscription_id@.len() == 0,
            r.cwd@.len() == 0,
            r.files@.len() == 0,
            r.error is None,
    {
        CheckoutDiff {
            subscription_id: String::new(),
            cwd: String::new(),
            files: Vec::new(),
            error: None,
        }
    }
}

/// The request for the diff of a checkout, and for word of every change to it.
pub fn subscribe_checkout_diff_request(request_id: &str, subscription_id: &str, cwd: &str, mode: &str) -> (r: Json)
    ensures
        r@ == JsonModel::Object(
            map![
                "type"@ => JsonModel::Text("subscribe_checkout_diff_request"@),
                "subscriptionId"@ => JsonModel::Text(subscription_id@),
                "cwd"@ => JsonModel::Text(cwd@),
                "compare"@ => JsonModel::Object(map!["mode"@ => JsonModel::Text(mode@)]),
                "requestId"@ => JsonModel::Text(request_id@),
            ],
        ),
{
    ObjectBuilder::new()
        .with("type", Json::text("subscribe_checkout_diff_request"))
        .with("subscriptionId", Json::text(subscription_id))
        .with("cwd", Json::text(cwd))
        .with("compare", ObjectBuilder::new().with("mode", Json::text(mode)).build())
        .with("requestId", Json::text(request_id))
        .build()
}

/// The message that ends a subscription to the diff of a checkout.
pub fn unsubscribe_checkout_diff_request(subscription_id: &str) -> (r: Json)
    ensures
        r@ == JsonModel::Object(
            map![
                "type"@ => JsonModel::Text("unsubscribe_checkout_diff_request"@),
                "subscriptionId"@ => JsonModel::Text(subscription_id@),
            ],
        ),
{
    ObjectBuilder::new()
        .with("type", Json::text("unsubscribe_checkout_diff_request"))
        .with("subscriptionId", Json::text(subscription_id))
        .build()
}

} // verus!
