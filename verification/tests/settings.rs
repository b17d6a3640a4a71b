use bridge_pool::settings::{BridgeServerConfig, same_launch_config};

#[test]
fn launch_config_compares_boolean_defaults_by_effective_value() {
    let inherited = BridgeServerConfig::default();
    let explicit = BridgeServerConfig {
        prefer_shared_instance: Some(false),
        enabled: Some(true),
        ..Default::default()
    };
    assert!(same_launch_config(&inherited, &explicit));
}

#[test]
fn only_a_server_with_settings_is_promised_some() {
    let mut config = BridgeServerConfig::default();
    assert!(!config.promises_settings());
    config.settings = Some(serde_json::from_str("{}").unwrap());
    assert!(config.promises_settings());
}
