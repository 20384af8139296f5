//! What a daemon says of itself.
use crate::collections::TextMap;
use crate::json::{Json, JsonModel};
use vstd::prelude::*;

verus! {

/// What a daemon says of itself.
#[derive(Debug)]
pub struct ServerInfo {
    pub server_id: String,
    pub hostname: Option<String>,
    pub version: Option<String>,
    pub desktop_managed: bool,
    pub features: TextMap<Json>,
    pub capabilities: TextMap<Json>,
}

impl ServerInfo {
    /// Whether the daemon says that it has the feature; anything but `true` counts as no.
    pub fn feature_enabled(&self, name: &str) -> (r: bool)
        ensures
            r == (self.features@.contains_key(name@) && self.features@[name@]@ == JsonModel::Bool(
                true,
            )),
    {
        match self.features.get(name) {
            Some(value) => match value.as_truth() {
                Some(b) => b,
                None => false,
            },
            None => false,
        }
    }
}

} // verus!
