use std::collections::HashSet;

use scada::mqtt::{normalize_topic_prefix, topic, MqttPublisherConfig, MqttQos};

#[test]
fn normalizes_empty_topic_prefix_to_default() {
    assert_eq!(normalize_topic_prefix("  /  "), "ss4/v1");
}

#[test]
fn trims_topic_prefix_slashes() {
    assert_eq!(topic("/plant/ss4/", "/health/"), "plant/ss4/health");
}

fn test_cfg() -> MqttPublisherConfig {
    MqttPublisherConfig {
        host: "127.0.0.1".to_string(),
        port: 1883,
        client_id: "test".to_string(),
        username: None,
        password: None,
        topic_prefix: "ss4/v1".to_string(),
        queue_cap: 1,
        qos: MqttQos::Qos1,
        retain_health: true,
        publish_values: true,
        publish_alarms: true,
        value_kpz_ids: HashSet::new(),
        value_group_ids: HashSet::new(),
        value_reg_ids: HashSet::new(),
    }
}

#[test]
fn value_filters_allow_all_when_empty() {
    let cfg = test_cfg();
    assert!(cfg.should_publish_value(3, Some(21), 6001));
    assert!(cfg.should_publish_value(4, None, 7001));
}

#[test]
fn value_filters_use_all_configured_dimensions() {
    let mut cfg = test_cfg();
    cfg.value_kpz_ids = HashSet::from([3]);
    cfg.value_group_ids = HashSet::from([21]);
    cfg.value_reg_ids = HashSet::from([6001, 6002]);

    assert!(cfg.should_publish_value(3, Some(21), 6001));
    assert!(!cfg.should_publish_value(4, Some(21), 6001));
    assert!(!cfg.should_publish_value(3, Some(22), 6001));
    assert!(!cfg.should_publish_value(3, Some(21), 7001));
    assert!(!cfg.should_publish_value(3, None, 6001));
}

#[test]
fn value_filters_respect_publish_values_switch() {
    let mut cfg = test_cfg();
    cfg.publish_values = false;
    assert!(!cfg.should_publish_value(3, Some(21), 6001));
}

#[test]
fn topic_keeps_inner_slashes_and_trims_blanks() {
    assert_eq!(topic(" a/b ", " values/7 "), "a/b/values/7");
    assert_eq!(topic("", "status"), "ss4/v1/status");
}
