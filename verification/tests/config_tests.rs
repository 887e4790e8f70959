use igra_status::config::{join_lines, u16_to_string, IgraConfig};

fn lines(v: &[&str]) -> Vec<String> {
    v.iter().map(|s| s.to_string()).collect()
}

#[test]
fn defaults_when_no_line_applies() {
    let config = IgraConfig::from_env_lines(&Vec::new());
    assert_eq!(config.node_name, "merlin");
    assert!(config.health_api_key.is_none());
    assert_eq!(config.kaspad_host, "host.docker.internal");
    assert_eq!(config.kaspad_port, 17110);
    assert_eq!(config.network, "testnet");
}

#[test]
fn recognized_keys_are_loaded() {
    let env = lines(&[
        "# deployment configuration",
        "",
        "NODE_ID=alpha",
        "HEALTH_CHECK_API_KEY=k123abc",
        "KASPAD_HOST= example.host ",
        "KASPAD_BORSH_PORT=16110",
        "NETWORK=mainnet",
        "OTHER=ignored",
    ]);
    let config = IgraConfig::from_env_lines(&env);
    assert_eq!(config.node_name, "alpha");
    assert_eq!(config.health_api_key.as_deref(), Some("k123abc"));
    assert_eq!(config.kaspad_host, "example.host");
    assert_eq!(config.kaspad_port, 16110);
    assert_eq!(config.network, "mainnet");
}

#[test]
fn sentinel_and_empty_api_keys_stay_unset() {
    let env = lines(&["HEALTH_CHECK_API_KEY=<your-api-key>"]);
    assert!(IgraConfig::from_env_lines(&env).health_api_key.is_none());
    let env = lines(&["HEALTH_CHECK_API_KEY="]);
    assert!(IgraConfig::from_env_lines(&env).health_api_key.is_none());
}

#[test]
fn malformed_ports_leave_the_port_unchanged() {
    let env = lines(&["KASPAD_BORSH_PORT=abc"]);
    assert_eq!(IgraConfig::from_env_lines(&env).kaspad_port, 17110);
    let env = lines(&["KASPAD_BORSH_PORT=70000"]);
    assert_eq!(IgraConfig::from_env_lines(&env).kaspad_port, 17110);
    let env = lines(&["KASPAD_BORSH_PORT="]);
    assert_eq!(IgraConfig::from_env_lines(&env).kaspad_port, 17110);
}

#[test]
fn plus_prefixed_ports_are_accepted() {
    let env = lines(&["KASPAD_BORSH_PORT=+16110"]);
    assert_eq!(IgraConfig::from_env_lines(&env).kaspad_port, 16110);
    let env = lines(&["KASPAD_BORSH_PORT=+"]);
    assert_eq!(IgraConfig::from_env_lines(&env).kaspad_port, 17110);
    let env = lines(&["KASPAD_BORSH_PORT=++5"]);
    assert_eq!(IgraConfig::from_env_lines(&env).kaspad_port, 17110);
}

#[test]
fn later_lines_override_earlier_ones() {
    let env = lines(&["NODE_ID=first", "NODE_ID=second"]);
    assert_eq!(IgraConfig::from_env_lines(&env).node_name, "second");
}

#[test]
fn comment_lines_are_skipped() {
    let env = lines(&["#NODE_ID=commented"]);
    assert_eq!(IgraConfig::from_env_lines(&env).node_name, "merlin");
}

#[test]
fn rewrite_replaces_matching_lines_in_place() {
    let mut config = IgraConfig::default();
    config.node_name = "beta".to_string();
    config.health_api_key = Some("k123abc".to_string());
    config.kaspad_port = 16110;
    config.network = "mainnet".to_string();
    let original = lines(&[
        "# header",
        "NODE_ID=old",
        "HEALTH_CHECK_API_KEY=<your-api-key>",
        "KASPAD_HOST=old.host",
        "KASPAD_BORSH_PORT=17110",
        "NETWORK=testnet",
        "EXTRA=kept",
    ]);
    let rewritten = config.rewrite_env_lines(&original);
    assert_eq!(
        rewritten,
        lines(&[
            "# header",
            "NODE_ID=beta",
            "HEALTH_CHECK_API_KEY=k123abc",
            "KASPAD_HOST=host.docker.internal",
            "KASPAD_BORSH_PORT=16110",
            "NETWORK=mainnet",
            "EXTRA=kept",
        ])
    );
}

#[test]
fn unset_api_key_renders_empty() {
    let config = IgraConfig::default();
    let rewritten = config.rewrite_env_lines(&lines(&["HEALTH_CHECK_API_KEY=old"]));
    assert_eq!(rewritten, lines(&["HEALTH_CHECK_API_KEY="]));
}

#[test]
fn ports_render_in_decimal() {
    assert_eq!(u16_to_string(0), "0");
    assert_eq!(u16_to_string(7), "7");
    assert_eq!(u16_to_string(17110), "17110");
    assert_eq!(u16_to_string(u16::MAX), "65535");
}

#[test]
fn joined_lines_use_single_line_feeds() {
    assert_eq!(join_lines(&Vec::new()), "");
    assert_eq!(join_lines(&lines(&["only"])), "only");
    assert_eq!(join_lines(&lines(&["a", "b", "c"])), "a\nb\nc");
}

#[test]
fn load_and_rewrite_round_trip() {
    let env = lines(&["NODE_ID=gamma", "KASPAD_BORSH_PORT=16110", "NETWORK=testnet"]);
    let config = IgraConfig::from_env_lines(&env);
    let rewritten = config.rewrite_env_lines(&env);
    assert_eq!(rewritten, env);
}
