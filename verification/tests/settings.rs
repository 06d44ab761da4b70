use oh_my_dockers::settings::{
    config_backup_name, config_version, migrate, migrate_config_if_needed, migrate_v0_to_v1,
    needs_migration, parse_toml, render_toml, SettingsError, TomlValue,
};

#[test]
fn test_migrate_v0_to_v1_empty_config() {
    let config = parse_toml("").unwrap();
    let config = migrate_v0_to_v1(config).unwrap();

    assert!(config.get("global").is_some());
    assert!(config.get("defaults").is_some());
    assert!(config.get("networks").is_some());
}

#[test]
fn test_migrate_v0_to_v1_partial_config() {
    let config = parse_toml(
        r#"
[global]
caddy_network = "my-net"
"#,
    )
    .unwrap();

    let config = migrate_v0_to_v1(config).unwrap();

    let global = config.get("global").unwrap();
    assert_eq!(
        global.get("caddy_network").unwrap().as_str().unwrap(),
        "my-net"
    );
    assert!(global.get("caddy_projects_dir").is_some());
    assert!(global.get("caddy_certs_dir").is_some());
    assert!(global.get("enable_https").is_some());
}

#[test]
fn migration_writes_the_whole_file() {
    let text = migrate_config_if_needed("[global]\ncaddy_network = \"my-net\"\nenable_https = false\n\n[extra]\nx = 1.5\nwhen = 2024-01-02T03:04:05Z\nlist = [1, 2]\n")
        .unwrap()
        .unwrap();
    assert_eq!(
        text,
        "# Global Configuration for oh-my-dockers\n# DO NOT EDIT the version field manually\nversion = 1\n\n[defaults]\ntimezone = \"Asia/Tokyo\"\n\n[extra]\nlist = [\n    1,\n    2,\n]\nwhen = 2024-01-02T03:04:05Z\nx = 1.5\n\n[global]\ncaddy_certs_dir = \"caddy/certs\"\ncaddy_network = \"my-net\"\ncaddy_projects_dir = \"caddy/projects\"\nenable_https = false\n\n[networks.caddy-net]\n"
    );
    assert!(migrate_config_if_needed(&text).unwrap().is_none());
    assert!(migrate_config_if_needed("version = 3\n").unwrap().is_none());
    assert!(matches!(migrate_config_if_needed("a = [").unwrap_err(), SettingsError::Syntax(_)));
}

#[test]
fn versions_and_odd_settings() {
    assert_eq!(config_version(&parse_toml("version = 2\n").unwrap()), 2);
    assert_eq!(config_version(&parse_toml("version = \"2\"\n").unwrap()), 0);
    assert_eq!(config_version(&parse_toml("").unwrap()), 0);
    assert!(needs_migration(0));
    assert!(!needs_migration(1));
    assert!(!needs_migration(-1));
    assert!(needs_migration(4294967296));
    assert!(migrate_v0_to_v1(TomlValue::Integer(1)).is_none());
    assert!(migrate(TomlValue::Boolean(true)).is_none());
    let odd = migrate_v0_to_v1(parse_toml("global = 1\n").unwrap()).unwrap();
    assert!(odd.get("global").unwrap().get("caddy_network").is_none());
    assert!(odd.get("defaults").is_some());
    assert!(matches!(
        render_toml(&TomlValue::Datetime("abc".to_string())),
        Err(SettingsError::Unwritable)
    ));
    assert_eq!(SettingsError::NotATable.message(), "Config is not a table");
    assert_eq!(config_backup_name("config.toml", "20240102_030405"), "config.toml.backup.20240102_030405");
}

#[test]
fn errors_of_the_toml_crate_come_with_their_message() {
    match parse_toml("a = [") {
        Err(e) => {
            assert!(matches!(e, SettingsError::Syntax(_)));
            assert!(e.message().contains("line 1"), "{}", e.message());
        }
        Ok(_) => panic!("an open bracket is no document"),
    }
    match render_toml(&TomlValue::Integer(1)) {
        Err(SettingsError::Refused(message)) => assert!(!message.is_empty()),
        other => panic!("unexpected {:?}", other),
    }
    let doc = parse_toml("x = 1.50\n[t]\nb = 2\na = 1\n").unwrap();
    assert_eq!(render_toml(&doc).unwrap(), "x = 1.5\n\n[t]\na = 1\nb = 2\n");
}
