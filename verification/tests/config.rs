use oh_my_dockers::config::{load_global_config, load_project_config, ConfigError};

#[test]
fn test_parse_caddy_routes_correct_format() {
    let toml_str = r#"
[project]
name = "sapphire"
domain = "sapphire.local"

[network]
name = "sapphire-net"

[caddy.routes]
api = "bff:8080"
"#;
    let config = load_project_config(toml_str).unwrap();

    assert!(!config.caddy.routes.is_empty(), "Routes should not be empty");
    let api = config
        .caddy
        .routes
        .iter()
        .find(|(name, _)| name == "api")
        .map(|(_, target)| target);
    assert_eq!(api, Some(&"bff:8080".to_string()));
}

#[test]
fn test_parse_caddy_routes_wrong_format() {
    let toml_str = r#"
[project]
name = "sapphire"
domain = "sapphire.local"

[network]
name = "sapphire-net"

[caddy]
api = "bff:8080"
"#;
    let result = load_project_config(toml_str);

    assert!(result.is_err(), "Should fail with unknown field 'api'");
    let err_msg = result.unwrap_err().message();
    assert!(
        err_msg.contains("unknown field"),
        "Error should mention unknown field"
    );
}

#[test]
fn project_settings_are_read_with_their_defaults() {
    let config = load_project_config(
        "[project]\nname = \"shop\"\ndomain = \"shop.local\"\n\n[network]\nname = \"shop-net\"\n",
    )
    .unwrap();
    assert_eq!(config.project.name, "shop");
    assert_eq!(config.project.domain, "shop.local");
    assert_eq!(config.project.path, None);
    assert_eq!(config.project.compose_file, "docker-compose.yml");
    assert_eq!(config.network.name, "shop-net");
    assert!(config.caddy.routes.is_empty());
}

#[test]
fn project_settings_that_are_set_are_taken() {
    let config = load_project_config(
        "[project]\nname = \"shop\"\npath = \"/srv/shop\"\ndomain = \"shop.local\"\ncompose_file = \"compose.dev.yml\"\nextra = 3\n\n[network]\nname = \"shop-net\"\n\n[caddy.routes]\nweb = \"front:3000\"\napi = \"back:8080\"\n",
    )
    .unwrap();
    assert_eq!(config.project.path, Some("/srv/shop".to_string()));
    assert_eq!(config.project.compose_file, "compose.dev.yml");
    let mut routes = config.caddy.routes.clone();
    routes.sort();
    assert_eq!(
        routes,
        vec![
            ("api".to_string(), "back:8080".to_string()),
            ("web".to_string(), "front:3000".to_string()),
        ]
    );
}

#[test]
fn a_missing_setting_is_named() {
    let result = load_project_config("[project]\nname = \"shop\"\n\n[network]\nname = \"n\"\n");
    match result {
        Err(ConfigError::MissingField(name)) => assert_eq!(name, "domain"),
        other => panic!("unexpected: {:?}", other),
    }
    let result = load_project_config("[project]\nname = \"shop\"\ndomain = \"d\"\n");
    match result {
        Err(ConfigError::MissingField(name)) => assert_eq!(name, "network"),
        other => panic!("unexpected: {:?}", other),
    }
    assert_eq!(
        ConfigError::MissingField("domain".to_string()).message(),
        "missing field `domain`"
    );
}

#[test]
fn a_setting_of_the_wrong_type_is_named() {
    let result = load_project_config(
        "[project]\nname = 7\ndomain = \"d\"\n\n[network]\nname = \"n\"\n",
    );
    match result {
        Err(ConfigError::InvalidType(name)) => assert_eq!(name, "name"),
        other => panic!("unexpected: {:?}", other),
    }
    let result = load_project_config(
        "[project]\nname = \"p\"\ndomain = \"d\"\n\n[network]\nname = \"n\"\n\n[caddy.routes]\napi = 8080\n",
    );
    match result {
        Err(ConfigError::InvalidType(name)) => assert_eq!(name, "api"),
        other => panic!("unexpected: {:?}", other),
    }
    assert_eq!(
        ConfigError::InvalidType("api".to_string()).message(),
        "invalid type for `api`"
    );
    assert_eq!(
        ConfigError::UnknownField("api".to_string()).message(),
        "unknown field `api`"
    );
}

#[test]
fn text_that_is_no_document_is_a_syntax_error() {
    assert!(matches!(
        load_project_config("[project"),
        Err(ConfigError::Syntax(_))
    ));
    assert!(matches!(
        load_global_config("global = = 1"),
        Err(ConfigError::Syntax(_))
    ));
}

#[test]
fn global_settings_are_read() {
    let config = load_global_config(
        r#"# Global Configuration

[global]
caddy_network = "caddy-net"
caddy_projects_dir = "caddy/projects"
caddy_certs_dir = "caddy/certs"
enable_https = true

[defaults]
timezone = "Asia/Tokyo"

[networks]
caddy-net = {}
my-network = { driver = "bridge", subnet = "172.20.0.0/16", gateway = "172.20.0.1" }
"#,
    )
    .unwrap();
    assert_eq!(config.global.caddy_network, "caddy-net");
    assert_eq!(config.global.caddy_projects_dir, "caddy/projects");
    assert_eq!(config.global.caddy_certs_dir, "caddy/certs");
    assert!(config.global.enable_https);
    assert_eq!(config.defaults.timezone, Some("Asia/Tokyo".to_string()));
    assert_eq!(config.networks.len(), 2);
    let plain = config.networks.iter().find(|n| n.0 == "caddy-net").unwrap();
    assert_eq!(plain.1.driver, None);
    assert_eq!(plain.1.subnet, None);
    assert_eq!(plain.1.gateway, None);
    let custom = config.networks.iter().find(|n| n.0 == "my-network").unwrap();
    assert_eq!(custom.1.driver, Some("bridge".to_string()));
    assert_eq!(custom.1.subnet, Some("172.20.0.0/16".to_string()));
    assert_eq!(custom.1.gateway, Some("172.20.0.1".to_string()));
}

#[test]
fn global_settings_have_their_defaults() {
    let config = load_global_config(
        "[global]\ncaddy_network = \"c\"\ncaddy_projects_dir = \"p\"\ncaddy_certs_dir = \"k\"\n",
    )
    .unwrap();
    assert!(!config.global.enable_https);
    assert_eq!(config.defaults.timezone, None);
    assert!(config.networks.is_empty());
}

#[test]
fn global_settings_report_what_is_wrong() {
    match load_global_config("[defaults]\ntimezone = \"UTC\"\n") {
        Err(ConfigError::MissingField(name)) => assert_eq!(name, "global"),
        other => panic!("unexpected: {:?}", other),
    }
    match load_global_config(
        "[global]\ncaddy_network = \"c\"\ncaddy_projects_dir = \"p\"\ncaddy_certs_dir = \"k\"\nenable_https = \"yes\"\n",
    ) {
        Err(ConfigError::InvalidType(name)) => assert_eq!(name, "enable_https"),
        other => panic!("unexpected: {:?}", other),
    }
    match load_global_config(
        "[global]\ncaddy_network = \"c\"\ncaddy_projects_dir = \"p\"\ncaddy_certs_dir = \"k\"\n\n[networks]\nlan = 4\n",
    ) {
        Err(ConfigError::InvalidType(name)) => assert_eq!(name, "lan"),
        other => panic!("unexpected: {:?}", other),
    }
}
