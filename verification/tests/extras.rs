use oh_my_dockers::backup::{backup_stamp, next_backup_name, Moment};
use oh_my_dockers::managed::{
    database_ports, managed_caddy_config, managed_compose, managed_domains, CaddyRoute,
    ManagedProject, ServiceConfig,
};
use oh_my_dockers::pattern::replace_env_vars;
use oh_my_dockers::scaffold::{
    answer_or_default, caddyfile_text, parse_selection, project_config_text,
};
use oh_my_dockers::validate::{validate_hosts_content, HostsFault};

fn s(text: &str) -> String {
    text.to_string()
}

fn managed(mode: &str, auto_subdomains: bool, routes: Vec<CaddyRoute>) -> ManagedProject {
    ManagedProject {
        name: s("daily"),
        domain: s("daily.local"),
        mode: s(mode),
        port_offset: 100,
        services: vec![
            (s("n8n"), ServiceConfig { enabled: true, version: None }),
            (s("postgres"), ServiceConfig { enabled: true, version: Some(s("16")) }),
            (s("ollama"), ServiceConfig { enabled: false, version: None }),
            (s("web"), ServiceConfig { enabled: true, version: None }),
        ],
        network: s("daily-net"),
        auto_subdomains,
        routes,
    }
}

fn route(domain: Option<&str>, subdomain: Option<&str>, target: &str) -> CaddyRoute {
    CaddyRoute { domain: domain.map(s), subdomain: subdomain.map(s), target: s(target) }
}

#[test]
fn variables_of_a_template_are_filled_in() {
    let template = "image: postgres:${POSTGRES_VERSION:-latest}\nport: ${POSTGRES_PORT:-5432}:5432\nname: ${PROJECT_NAME}\nother: ${UNSET:-fallback}\nkept: ${NOT_SET}\n";
    let vars = vec![(s("PROJECT_NAME"), s("shop")), (s("POSTGRES_PORT"), s("5532"))];
    assert_eq!(
        replace_env_vars(template, &vars, "postgres", Some("16")),
        "image: postgres:16\nport: 5532:5432\nname: shop\nother: fallback\nkept: ${NOT_SET}\n"
    );
    assert_eq!(
        replace_env_vars(template, &vec![], "postgres", None),
        "image: postgres:latest\nport: 5432:5432\nname: ${PROJECT_NAME}\nother: fallback\nkept: ${NOT_SET}\n"
    );
    assert_eq!(replace_env_vars("", &vars, "x", Some("1")), "");
    assert_eq!(
        replace_env_vars("${A.B:-x} ${AxB:-y}", &vec![(s("A.B"), s("1"))], "x", None),
        "1 y"
    );
}

#[test]
fn domains_of_a_managed_project() {
    assert_eq!(
        managed_domains(&managed("managed", true, vec![])),
        vec![s("daily.local"), s("n8n.daily.local")]
    );
    assert_eq!(managed_domains(&managed("managed", false, vec![])), vec![s("daily.local")]);
    assert_eq!(
        managed_domains(&managed(
            "proxy-only",
            true,
            vec![
                route(None, Some("api"), "a:1"),
                route(Some("daily.local"), None, "b:2"),
                route(Some("other.local"), None, "c:3"),
                route(None, None, "d:4"),
            ]
        )),
        vec![s("daily.local"), s("api.daily.local"), s("other.local")]
    );
}

#[test]
fn proxy_configuration_of_a_managed_project() {
    let text = managed_caddy_config(
        "daily",
        &managed("managed", true, vec![route(Some("x.local"), None, "x:1"), route(None, None, "y:2")]),
    );
    assert_eq!(
        text,
        "# Auto-generated Caddy configuration for daily\n# Domain: daily.local\n\nn8n.daily.local {\n    tls /certs/daily_local.crt /certs/daily_local.key\n    reverse_proxy daily-n8n:5678\n}\n\nweb.daily.local {\n    tls /certs/daily_local.crt /certs/daily_local.key\n    reverse_proxy daily-web:8080\n}\n\nx.local {\n    tls /certs/daily_local.crt /certs/daily_local.key\n    reverse_proxy x:1\n}\n\n"
    );
    assert_eq!(
        managed_caddy_config("d", &managed("other", true, vec![])),
        "# Auto-generated Caddy configuration for d\n# Domain: daily.local\n\n"
    );
}

#[test]
fn database_ports_move_with_the_offset() {
    assert_eq!(
        database_ports(100).unwrap(),
        vec![
            (s("POSTGRES_PORT"), s("5532")),
            (s("REDIS_PORT"), s("6479")),
            (s("MYSQL_PORT"), s("3406")),
            (s("MONGODB_PORT"), s("27117")),
        ]
    );
    assert_eq!(database_ports(38518).unwrap()[3].1, "65535");
    assert_eq!(database_ports(38519).unwrap_err(), "MongoDB");
    assert_eq!(database_ports(59157).unwrap_err(), "Redis");
    assert_eq!(database_ports(60104).unwrap_err(), "PostgreSQL");
    assert_eq!(database_ports(65535).unwrap_err(), "PostgreSQL");
}

#[test]
fn manifest_of_a_managed_project() {
    assert_eq!(
        managed_compose(
            "daily",
            "2024-01-02 03:04:05",
            &vec![s("  a:\n    image: x\n"), s("  b:\n")],
            &vec![s("  data:\n")],
            "daily-net",
            "caddy-net"
        ),
        "# Auto-generated docker-compose file for daily\n# Generated at: 2024-01-02 03:04:05\n\nname: oh-my-dockers\n\nservices:\n  a:\n    image: x\n\n  b:\n\n\nvolumes:\n  data:\n\nnetworks:\n  daily-net:\n    external: true\n  caddy-net:\n    external: true\n"
    );
    assert_eq!(
        managed_compose("d", "t", &vec![], &vec![], "n", "c"),
        "# Auto-generated docker-compose file for d\n# Generated at: t\n\nname: oh-my-dockers\n\nservices:\n\nnetworks:\n  n:\n    external: true\n  c:\n    external: true\n"
    );
}

#[test]
fn answers_and_selections() {
    assert_eq!(answer_or_default("\n", "fallback"), "fallback");
    assert_eq!(answer_or_default("  mine \n", "fallback"), "mine");
    assert_eq!(parse_selection("1 3 2\n", 3), vec![0, 2, 1]);
    assert_eq!(parse_selection(" 0 4 x 2 -1 +3 2\t", 3), vec![1, 2, 1]);
    assert_eq!(parse_selection("", 3), Vec::<usize>::new());
    assert_eq!(parse_selection("1", 0), Vec::<usize>::new());
    assert_eq!(parse_selection("99999999999999999999999 1", 1), vec![0]);
}

#[test]
fn files_of_a_new_setup() {
    assert_eq!(
        caddyfile_text(false),
        "{\n    admin 0.0.0.0:2019\n    auto_https off\n}\n\n# Import all project configurations\nimport /etc/caddy/projects/*.caddy\n"
    );
    assert_eq!(
        caddyfile_text(true),
        "{\n    admin 0.0.0.0:2019\n}\n\n# Import all project configurations\nimport /etc/caddy/projects/*.caddy\n"
    );
    let plain = project_config_text("shop", "shop.local", "shop-net", "docker-compose.yml", false);
    assert_eq!(
        plain,
        "# oh-my-dockers Project Configuration\n# See https://github.com/your-repo/oh-my-dockers for more information\n\n[project]\n# Project name (used for container naming)\nname = \"shop\"\n\n# Domain for this project\ndomain = \"shop.local\"\n\n[network]\n# Docker network name for this project\nname = \"shop-net\"\n"
    );
    let full = project_config_text("shop", "shop.local", "shop-net", "compose.yaml", true);
    assert!(full.contains("\ncompose_file = \"compose.yaml\"\n\n[network]\n"));
    assert!(full.ends_with("#   admin = \"admin:8080\"\nroutes = {}\n"));
}

#[test]
fn hosts_text_is_checked_before_it_is_written() {
    assert!(validate_hosts_content("127.0.0.1 localhost\n# comment\n\n::1 ip6-localhost x\n").is_ok());
    assert!(matches!(validate_hosts_content(" \n\t\n"), Err(HostsFault::Empty)));
    match validate_hosts_content("127.0.0.1 a\n  127.0.0.1  \nbad line\n") {
        Err(HostsFault::Format(line)) => assert_eq!(line, "  127.0.0.1  "),
        other => panic!("unexpected {:?}", other),
    }
    match validate_hosts_content("localhost a.local\n") {
        Err(fault) => {
            assert!(matches!(&fault, HostsFault::Address(a) if a == "localhost"));
            assert_eq!(fault.message(), "Invalid IP address: localhost");
        }
        Ok(()) => panic!("localhost is no address"),
    }
}

#[test]
fn block_of_a_managed_project() {
    assert_eq!(
        oh_my_dockers::managed::generate_entry("daily", &managed("managed", true, vec![])),
        "# oh-my-dockers: daily\n127.0.0.1 daily.local n8n.daily.local\n# oh-my-dockers: end"
    );
}

#[test]
fn white_space_is_what_the_standard_library_calls_so() {
    let mut code: u32 = 0;
    while code <= 0x10FFFF {
        if let Some(c) = char::from_u32(code) {
            assert_eq!(
                oh_my_dockers::text::is_whitespace(c),
                c.is_whitespace(),
                "at U+{:04X}",
                code
            );
        }
        code += 1;
    }
}

#[test]
fn a_moment_is_stamped_digit_by_digit() {
    let at = |year, month, day, hour, minute, second| Moment { year, month, day, hour, minute, second };
    assert_eq!(backup_stamp(at(2024, 3, 7, 9, 5, 1)), "20240307_090501");
    assert_eq!(backup_stamp(at(2024, 12, 31, 23, 59, 59)), "20241231_235959");
    assert_eq!(backup_stamp(at(987, 1, 2, 0, 0, 0)), "09870102_000000");
    assert_eq!(backup_stamp(at(7, 10, 20, 10, 20, 30)), "00071020_102030");
    assert_eq!(backup_stamp(at(12345, 1, 1, 1, 1, 1)), "123450101_010101");
    assert_eq!(backup_stamp(at(-44, 3, 15, 12, 0, 0)), "-00440315_120000");
    let name = next_backup_name();
    assert_eq!(name.len(), "hosts_20240307_090501.bak".len());
    let stamp = &name["hosts_".len()..name.len() - ".bak".len()];
    assert!(stamp.chars().enumerate().all(|(i, c)| if i == 8 { c == '_' } else { c.is_ascii_digit() }));
}
