use std::collections::HashSet;

use scada::config::{
    env_bool, positive_id_set, resolve_mqtt_config, resolve_optional_secret, resolve_scheduler_config,
    resolve_telegram_bot_token, FileMqttConfig, FileSchedulerConfig, FileTelegramConfig,
};
use scada::mqtt::MqttQos;

fn telegram_cfg(bot_token: Option<&str>, bot_token_env: Option<&str>) -> FileTelegramConfig {
    FileTelegramConfig {
        enabled: Some(true),
        bot_token: bot_token.map(str::to_string),
        bot_token_env: bot_token_env.map(str::to_string),
        queue_cap: None,
    }
}

fn mqtt_cfg() -> FileMqttConfig {
    FileMqttConfig {
        enabled: Some(true),
        host: None,
        port: None,
        client_id: None,
        username: None,
        username_env: None,
        password: None,
        password_env: None,
        topic_prefix: None,
        queue_cap: None,
        qos: None,
        retain_health: None,
        publish_values: None,
        publish_alarms: None,
        value_kpz_ids: None,
        value_group_ids: None,
        value_reg_ids: None,
    }
}

#[test]
fn telegram_token_prefers_configured_env_var() {
    let cfg = telegram_cfg(Some("file-token"), Some("SS4_TG_TOKEN"));
    let token = resolve_telegram_bot_token(&cfg, |name: &str| {
        (name == "SS4_TG_TOKEN").then(|| "env-token".to_string())
    });
    assert_eq!(token.as_deref(), Some("env-token"));
}

#[test]
fn telegram_token_uses_default_env_var_when_name_is_missing() {
    let cfg = telegram_cfg(Some("file-token"), None);
    let token = resolve_telegram_bot_token(&cfg, |name: &str| {
        (name == "TELEGRAM_BOT_TOKEN").then(|| "default-env-token".to_string())
    });
    assert_eq!(token.as_deref(), Some("default-env-token"));
}

#[test]
fn telegram_token_falls_back_to_file_value() {
    let cfg = telegram_cfg(Some("  file-token  "), Some("SS4_TG_TOKEN"));
    let token = resolve_telegram_bot_token(&cfg, |_: &str| None);
    assert_eq!(token.as_deref(), Some("file-token"));
}

#[test]
fn telegram_token_missing_or_blank_gives_none() {
    let cfg = telegram_cfg(Some("   "), None);
    assert_eq!(resolve_telegram_bot_token(&cfg, |_: &str| Some("  ".to_string())), None);
    let cfg = telegram_cfg(None, None);
    assert_eq!(resolve_telegram_bot_token(&cfg, |_: &str| None), None);
}

#[test]
fn mqtt_config_defaults_are_safe_for_local_broker() {
    let cfg = mqtt_cfg();
    let resolved = resolve_mqtt_config(&cfg, &|_: &str| None);

    assert_eq!(resolved.host, "127.0.0.1");
    assert_eq!(resolved.port, 1883);
    assert_eq!(resolved.client_id, "ss4");
    assert_eq!(resolved.topic_prefix, "ss4/v1");
    assert_eq!(resolved.queue_cap, 1000);
    assert_eq!(resolved.qos, MqttQos::Qos1);
    assert!(resolved.retain_health);
    assert!(resolved.publish_values);
    assert!(resolved.publish_alarms);
    assert!(resolved.value_kpz_ids.is_empty());
    assert!(resolved.value_group_ids.is_empty());
    assert!(resolved.value_reg_ids.is_empty());
}

#[test]
fn mqtt_config_prefers_env_secrets_and_normalizes_fields() {
    let mut cfg = mqtt_cfg();
    cfg.host = Some(" mqtt.local ".to_string());
    cfg.client_id = Some(" ss4-test ".to_string());
    cfg.username = Some("file-user".to_string());
    cfg.username_env = Some("SS4_MQTT_USER".to_string());
    cfg.password = Some("file-pass".to_string());
    cfg.password_env = Some("SS4_MQTT_PASS".to_string());
    cfg.topic_prefix = Some("/plant/ss4/".to_string());
    cfg.queue_cap = Some(0);
    cfg.qos = Some(2);
    cfg.retain_health = Some(false);
    cfg.publish_values = Some(false);
    cfg.value_kpz_ids = Some(vec![3, 0, -1, 5]);
    cfg.value_group_ids = Some(vec![21]);
    cfg.value_reg_ids = Some(vec![6001, 6002]);

    let resolved = resolve_mqtt_config(&cfg, &|name: &str| match name {
        "SS4_MQTT_USER" => Some(" env-user ".to_string()),
        "SS4_MQTT_PASS" => Some(" env-pass ".to_string()),
        _ => None,
    });

    assert_eq!(resolved.host, "mqtt.local");
    assert_eq!(resolved.client_id, "ss4-test");
    assert_eq!(resolved.username.as_deref(), Some("env-user"));
    assert_eq!(resolved.password.as_deref(), Some("env-pass"));
    assert_eq!(resolved.topic_prefix, "plant/ss4");
    assert_eq!(resolved.queue_cap, 1);
    assert_eq!(resolved.qos, MqttQos::Qos2);
    assert!(!resolved.retain_health);
    assert!(!resolved.publish_values);
    assert!(resolved.publish_alarms);
    assert_eq!(resolved.value_kpz_ids, HashSet::from([3, 5]));
    assert_eq!(resolved.value_group_ids, HashSet::from([21]));
    assert_eq!(resolved.value_reg_ids, HashSet::from([6001, 6002]));
}

#[test]
fn mqtt_config_unknown_qos_falls_back_to_qos1() {
    let mut cfg = mqtt_cfg();
    cfg.qos = Some(7);
    let resolved = resolve_mqtt_config(&cfg, &|_: &str| None);
    assert_eq!(resolved.qos, MqttQos::Qos1);
}

#[test]
fn mqtt_config_uses_file_secret_when_env_blank() {
    let mut cfg = mqtt_cfg();
    cfg.username = Some(" file-user ".to_string());
    cfg.qos = Some(0);
    let resolved = resolve_mqtt_config(&cfg, &|name: &str| match name {
        "MQTT_USER" => Some("   ".to_string()),
        _ => None,
    });
    assert_eq!(resolved.username.as_deref(), Some("file-user"));
    assert_eq!(resolved.password, None);
    assert_eq!(resolved.qos, MqttQos::Qos0);
}

fn scheduler_cfg(
    max_inflight: Option<usize>,
    auto_inflight: Option<bool>,
    auto_inflight_max: Option<usize>,
    auto_inflight_backlog_per_slot: Option<usize>,
) -> FileSchedulerConfig {
    FileSchedulerConfig {
        pool_size: Some(10),
        tick_ms: Some(250),
        sync_period_sec: Some(2),
        max_queue: Some(100),
        max_inflight,
        auto_inflight,
        auto_inflight_max,
        auto_inflight_backlog_per_slot,
    }
}

#[test]
fn scheduler_auto_inflight_keys_do_not_change_fixed_max_inflight() {
    let file_cfg = scheduler_cfg(Some(4), Some(true), Some(9), Some(1));
    let (cfg, has_auto) = resolve_scheduler_config(Some(&file_cfg), &|_: &str| None);
    assert!(has_auto);
    assert_eq!(cfg.max_inflight, 4);
    assert_eq!(cfg.pool_size, 10);
}

#[test]
fn scheduler_auto_inflight_env_is_reported_but_not_applied() {
    let file_cfg = scheduler_cfg(None, None, None, None);
    let (cfg, has_auto) = resolve_scheduler_config(Some(&file_cfg), &|name: &str| match name {
        "SCHED_MAX_INFLIGHT" => Some("5".to_string()),
        "SCHED_AUTO_INFLIGHT" => Some("true".to_string()),
        "SCHED_AUTO_INFLIGHT_MAX" => Some("9".to_string()),
        _ => None,
    });
    assert!(has_auto);
    assert_eq!(cfg.max_inflight, 5);
}

#[test]
fn scheduler_defaults_without_file_and_zero_values_become_one() {
    let (cfg, has_auto) = resolve_scheduler_config(None, &|name: &str| match name {
        "SCHED_TICK_MS" => Some("0".to_string()),
        "SCHED_MAX_QUEUE" => Some("not-a-number".to_string()),
        _ => None,
    });
    assert!(!has_auto);
    assert_eq!(cfg.pool_size, 420);
    assert_eq!(cfg.tick_ms, 1);
    assert_eq!(cfg.sync_period_sec, 2);
    assert_eq!(cfg.max_queue, 10000);
    assert_eq!(cfg.max_inflight, 420);
}

#[test]
fn env_bool_reads_words_in_any_case() {
    let get = |name: &str| match name {
        "A" => Some(" YES ".to_string()),
        "B" => Some("Off".to_string()),
        "C" => Some("maybe".to_string()),
        _ => None,
    };
    assert!(env_bool(&get, "A", false));
    assert!(!env_bool(&get, "B", true));
    assert!(env_bool(&get, "C", true));
    assert!(!env_bool(&get, "D", false));
}

#[test]
fn optional_secret_prefers_named_variable() {
    let get = |name: &str| (name == "X").then(|| " v ".to_string());
    assert_eq!(resolve_optional_secret(Some(" X "), Some("f"), "D", &get).as_deref(), Some("v"));
    assert_eq!(resolve_optional_secret(Some("  "), Some(" f "), "D", &get).as_deref(), Some("f"));
    assert_eq!(resolve_optional_secret(None, None, "D", &get), None);
}

#[test]
fn positive_id_set_drops_non_positive() {
    assert_eq!(positive_id_set(Some(&[0, 4, -2, 4, 9])), HashSet::from([4, 9]));
    assert!(positive_id_set(None).is_empty());
}
