//! Settings of the MQTT publisher, its topics, and which register values
//! it publishes.

use vstd::prelude::*;
use std::collections::HashSet;

use crate::text::{trim_slashes, trim_slashes_spec, trim_spec, trim_str};

verus! {

/// MQTT delivery guarantee.
#[derive(Clone, Copy, Debug, PartialEq, Eq, Structural)]
pub enum MqttQos {
    Qos0,
    Qos1,
    Qos2,
}

/// Settings of the MQTT publisher.
#[derive(Debug)]
pub struct MqttPublisherConfig {
    pub host: String,
    pub port: u16,
    pub client_id: String,
    pub username: Option<String>,
    pub password: Option<String>,
    pub topic_prefix: String,
    pub queue_cap: usize,
    pub qos: MqttQos,
    pub retain_health: bool,
    pub publish_values: bool,
    pub publish_alarms: bool,
    /// КПЗ ids whose values are published; empty for all.
    pub value_kpz_ids: HashSet<i32>,
    /// Group ids whose values are published; empty for all.
    pub value_group_ids: HashSet<i32>,
    /// Register ids whose values are published; empty for all.
    pub value_reg_ids: HashSet<i32>,
}

/// The body of a health message.
#[derive(Clone, Debug)]
pub struct MqttHealthPayload {
    pub kind: String,
    pub message: String,
}

/// The topic prefix: blanks, then slashes, stripped from both ends;
/// "ss4/v1" when nothing is left.
pub open spec fn normalize_topic_prefix_spec(prefix: Seq<char>) -> Seq<char> {
    let p = trim_slashes_spec(trim_spec(prefix));
    if p.len() == 0 { "ss4/v1"@ } else { p }
}

/// Normalizes a topic prefix.
pub fn normalize_topic_prefix(prefix: &str) -> (r: String)
    ensures
        r@ == normalize_topic_prefix_spec(prefix@),
{
    let t = trim_str(prefix);
    let p = trim_slashes(t.as_str());
    if p.as_str().unicode_len() == 0 {
        String::from_str("ss4/v1")
    } else {
        p
    }
}

/// A topic: the normalized prefix, a slash, and the suffix with blanks
/// and then slashes stripped from both ends.
pub open spec fn topic_spec(prefix: Seq<char>, suffix: Seq<char>) -> Seq<char> {
    normalize_topic_prefix_spec(prefix) + "/"@ + trim_slashes_spec(trim_spec(suffix))
}

/// Builds the topic `suffix` under `prefix`.
pub fn topic(prefix: &str, suffix: &str) -> (r: String)
    ensures
        r@ == topic_spec(prefix@, suffix@),
{
    let mut out = normalize_topic_prefix(prefix);
    out.append("/");
    let t = trim_str(suffix);
    let s = trim_slashes(t.as_str());
    out.append(s.as_str());
    out
}

impl MqttPublisherConfig {
    /// Whether the value of a register is published: values are enabled,
    /// and each non-empty id filter (КПЗ, register, group) holds the
    /// register's id; a register without a group fails a group filter.
    pub open spec fn publishes_value(&self, kpz_id: i32, group_id: Option<i32>, reg_id: i32) -> bool {
        &&& self.publish_values
        &&& (self.value_kpz_ids@.is_empty() || self.value_kpz_ids@.contains(kpz_id))
        &&& (self.value_reg_ids@.is_empty() || self.value_reg_ids@.contains(reg_id))
        &&& (self.value_group_ids@.is_empty() || match group_id {
            Some(g) => self.value_group_ids@.contains(g),
            None => false,
        })
    }

    /// Decides whether the value of a register is published.
    pub fn should_publish_value(&self, kpz_id: i32, group_id: Option<i32>, reg_id: i32) -> (r: bool)
        ensures
            r == self.publishes_value(kpz_id, group_id, reg_id),
    {
        broadcast use vstd::std_specs::hash::group_hash_axioms;
        if !self.publish_values {
            return false;
        }
        if !self.value_kpz_ids.is_empty() && !self.value_kpz_ids.contains(&kpz_id) {
            return false;
        }
        if !self.value_reg_ids.is_empty() && !self.value_reg_ids.contains(&reg_id) {
            return false;
        }
        if !self.value_group_ids.is_empty() {
            return match group_id {
                Some(id) => self.value_group_ids.contains(&id),
                None => false,
            };
        }
        true
    }
}

} // verus!
