use mavgate::config::{
    default_batch_key, default_batch_timeout_forward, default_direction, default_modifiers_dir,
    default_plugins_dir, parse_log_level, sort_rules_by_priority, CommandRule, Config,
    ConfigError, LogLevel, LoggingConfig, ModifiersConfig, NetworkConfig, PluginsConfig,
    RuleConditions,
};

fn base_rule(name: &str) -> CommandRule {
    CommandRule {
        name: name.to_owned(),
        enabled_by_default: true,
        message_type: "HEARTBEAT".to_owned(),
        conditions: RuleConditions { system_id: None, component_id: None, custom: Vec::new() },
        action: None,
        actions: Some(vec!["forward".to_owned()]),
        delay_seconds: None,
        batch_count: None,
        batch_timeout_seconds: None,
        batch_timeout_forward: default_batch_timeout_forward(),
        batch_key: default_batch_key(),
        batch_system_id_field: None,
        plugins: Vec::new(),
        auto_ack: false,
        ack: None,
        modifier: None,
        description: None,
        priority: 0,
        direction: default_direction(),
        triggers: None,
    }
}

fn config_with(rules: Vec<CommandRule>) -> Config {
    Config {
        network: NetworkConfig {
            gcs_listen_port: 14550,
            gcs_listen_address: "0.0.0.0".to_owned(),
            router_address: "127.0.0.1".to_owned(),
            router_port: 5760,
        },
        logging: LoggingConfig { level: "info".to_owned() },
        plugins: PluginsConfig { directory: default_plugins_dir(), load: Vec::new() },
        modifiers: ModifiersConfig { directory: default_modifiers_dir(), load: Vec::new() },
        rules,
    }
}

#[test]
fn validate_accepts_a_sound_config() {
    assert!(config_with(vec![base_rule("a")]).validate().is_ok());
}

#[test]
fn validate_rejects_zero_listen_port() {
    let mut c = config_with(vec![]);
    c.network.gcs_listen_port = 0;
    assert_eq!(c.validate(), Err(ConfigError::ZeroListenPort));
}

#[test]
fn validate_rejects_a_rule_without_actions() {
    let mut r = base_rule("a");
    r.actions = None;
    assert_eq!(
        config_with(vec![r]).validate(),
        Err(ConfigError::RuleWithoutAction { index: 0 })
    );
}

#[test]
fn validate_rejects_an_unknown_action() {
    let mut r = base_rule("a");
    r.actions = Some(vec!["explode".to_owned()]);
    assert_eq!(
        config_with(vec![base_rule("ok"), r]).validate(),
        Err(ConfigError::InvalidAction { index: 1 })
    );
}

#[test]
fn validate_rejects_an_unknown_direction() {
    let mut r = base_rule("a");
    r.direction = "sideways".to_owned();
    assert_eq!(
        config_with(vec![r]).validate(),
        Err(ConfigError::InvalidDirection { index: 0 })
    );
}

#[test]
fn validate_rejects_delay_without_seconds() {
    let mut r = base_rule("a");
    r.actions = Some(vec!["delay".to_owned()]);
    assert_eq!(
        config_with(vec![r]).validate(),
        Err(ConfigError::DelayWithoutSeconds { index: 0 })
    );
}

#[test]
fn validate_rejects_incomplete_batch_settings() {
    let mut no_count = base_rule("a");
    no_count.actions = Some(vec!["batch".to_owned()]);
    assert_eq!(
        config_with(vec![no_count]).validate(),
        Err(ConfigError::BatchWithoutCount { index: 0 })
    );
    let mut no_timeout = base_rule("a");
    no_timeout.actions = Some(vec!["batch".to_owned()]);
    no_timeout.batch_count = Some(3);
    assert_eq!(
        config_with(vec![no_timeout]).validate(),
        Err(ConfigError::BatchWithoutTimeout { index: 0 })
    );
}

#[test]
fn validate_rejects_modify_without_modifier() {
    let mut r = base_rule("a");
    r.actions = Some(vec!["modify".to_owned()]);
    assert_eq!(
        config_with(vec![r]).validate(),
        Err(ConfigError::ModifyWithoutModifier { index: 0 })
    );
}

#[test]
fn validate_rejects_auto_ack_without_spec() {
    let mut r = base_rule("a");
    r.auto_ack = true;
    assert_eq!(
        config_with(vec![r]).validate(),
        Err(ConfigError::AckWithoutSpec { index: 0 })
    );
}

#[test]
fn get_actions_falls_back_to_the_single_action() {
    let mut r = base_rule("a");
    r.actions = None;
    r.action = Some("block".to_owned());
    assert_eq!(r.get_actions(), vec!["block".to_owned()]);
    r.action = None;
    assert!(r.get_actions().is_empty());
}

#[test]
fn sort_orders_by_descending_priority_and_keeps_tie_order() {
    let mut a = base_rule("a");
    a.priority = 5;
    let mut b = base_rule("b");
    b.priority = 10;
    let mut c = base_rule("c");
    c.priority = 5;
    let sorted = sort_rules_by_priority(vec![a, b, c]);
    let names: Vec<&str> = sorted.iter().map(|r| r.name.as_str()).collect();
    assert_eq!(names, vec!["b", "a", "c"]);
}

#[test]
fn log_levels_parse_with_info_as_the_default() {
    assert_eq!(parse_log_level("trace"), LogLevel::Trace);
    assert_eq!(parse_log_level("debug"), LogLevel::Debug);
    assert_eq!(parse_log_level("info"), LogLevel::Info);
    assert_eq!(parse_log_level("warn"), LogLevel::Warn);
    assert_eq!(parse_log_level("error"), LogLevel::Error);
    assert_eq!(parse_log_level("chatty"), LogLevel::Info);
}
