use oh_my_dockers::backup::{
    backup_file_name, backups_newest_first, backups_to_prune, is_backup_name, next_backup_name,
    BackupFile,
};
use oh_my_dockers::compose::ComposeInfo;
use oh_my_dockers::flow::{
    answer_event, next_step, proceeds_by_default, proceeds_on_request, write_failure_message,
    Event, Outcome, Step,
};
use oh_my_dockers::plan::list_managed_domains;
use oh_my_dockers::ports::{format_ports, parse_port_mappings};
use oh_my_dockers::project::{
    cert_name, default_compose_file, generate_caddy_config, project_domains, project_entry,
    register_unless_conflict, tls_mode, CaddyConfig, NetworkConfig, ProjectConfig, ProjectInfo,
    TlsMode,
};
use oh_my_dockers::proxy::{parse_proxy_rule, proxy_rule_text, rule_file_name};
use oh_my_dockers::registry::PortRegistry;
use oh_my_dockers::search::{contains, find, replace_all, trim_end_matches};
use oh_my_dockers::template::{
    get_service_port, is_http_service, is_known_http_service, offset_port, parse_env,
    parse_template, update_config_paths,
};
use oh_my_dockers::text::{
    chars_of, decimal_chars, parse_decimal, parse_port, second_token, split_fields, string_of,
    text_lt, trim,
};

fn c(s: &str) -> Vec<char> {
    s.chars().collect()
}

fn config(routes: Vec<(&str, &str)>) -> ProjectConfig {
    ProjectConfig {
        project: ProjectInfo {
            name: "shop".to_string(),
            path: None,
            domain: "shop.local".to_string(),
            compose_file: default_compose_file(),
        },
        network: NetworkConfig { name: "shop-net".to_string() },
        caddy: CaddyConfig {
            routes: routes.into_iter().map(|(a, b)| (a.to_string(), b.to_string())).collect(),
        },
    }
}

#[test]
fn text_helpers_agree_with_the_standard_library() {
    for s in ["", " ", "  a b  ", "\t\u{a0}x\u{3000}", "a", "\u{85}\u{1680}\u{2028}z\u{205f}", "\u{200b}a"] {
        assert_eq!(string_of(&trim(&c(s))), s.trim(), "trim {:?}", s);
        let second = second_token(&c(s)).map(|w| string_of(&w));
        assert_eq!(second.as_deref(), s.split_whitespace().nth(1), "second {:?}", s);
    }
    for s in ["0", "7", "65535", "65536", "+1", "-1", "", "+", "12a", " 1", "00012", "99999999999999999999"] {
        assert_eq!(parse_port(&c(s)), s.parse::<u16>().ok(), "port {:?}", s);
        assert_eq!(parse_decimal(&c(s), u64::MAX), s.parse::<u64>().ok(), "u64 {:?}", s);
    }
    assert_eq!(parse_decimal(&c("18446744073709551615"), u64::MAX), Some(u64::MAX));
    assert_eq!(parse_decimal(&c("18446744073709551616"), u64::MAX), None);
    for n in [0u64, 9, 10, 65535, 1234567890, u64::MAX] {
        assert_eq!(string_of(&decimal_chars(n)), n.to_string());
    }
    for (s, sep) in [("a:b:c", ':'), ("", ':'), (":", ':'), ("a::", ':'), ("abc", '/')] {
        let got: Vec<String> = split_fields(&c(s), sep).iter().map(string_of).collect();
        let want: Vec<String> = s.split(sep).map(|x| x.to_string()).collect();
        assert_eq!(got, want, "split {:?}", s);
    }
    for (a, b) in [("a", "b"), ("b", "a"), ("a", "a"), ("", "a"), ("a", ""), ("ab", "a"), ("Z", "a"), ("é", "z")] {
        assert_eq!(text_lt(&c(a), &c(b)), a < b, "{:?} < {:?}", a, b);
    }
    assert_eq!(chars_of("héllo"), c("héllo"));
}

#[test]
fn search_and_replace_agree_with_the_standard_library() {
    for (s, p, w) in [
        ("a.b.c", ".", "_"),
        ("aaa", "aa", "b"),
        ("./init ./initial", "./init", "init"),
        ("", "x", "y"),
        ("xyz", "xyz", ""),
        ("abab", "ab", "abab"),
    ] {
        assert_eq!(string_of(&replace_all(&c(s), &c(p), &c(w))), s.replace(p, w));
        assert_eq!(contains(&c(s), &c(p)), s.contains(p));
        assert_eq!(find(&c(s), &c(p), 0), s.find(p).unwrap_or(s.len()));
    }
    assert_eq!(string_of(&trim_end_matches(&c("a{{"), '{')), "a");
    assert_eq!(string_of(&trim_end_matches(&c("{{"), '{')), "");
    assert_eq!(string_of(&trim_end_matches(&c("a{b"), '{')), "a{b");
}

#[test]
fn backups_are_named_and_pruned() {
    assert_eq!(backup_file_name("20240102_030405"), "hosts_20240102_030405.bak");
    let next = next_backup_name();
    assert!(next.starts_with("hosts_") && next.ends_with(".bak") && next.len() > 10);
    assert!(is_backup_name("hosts_1.bak"));
    assert!(is_backup_name("a.b.bak"));
    assert!(!is_backup_name(".bak"));
    assert!(!is_backup_name("bak"));
    assert!(!is_backup_name("hosts.bak.txt"));
    assert!(!is_backup_name("hosts.BAK"));
    assert!(!is_backup_name(""));
    let file = |name: &str, modified: u64| BackupFile { name: name.to_string(), modified };
    let files = vec![
        file("hosts_1.bak", 10),
        file("notes.txt", 99),
        file("hosts_2.bak", 30),
        file("hosts_3.bak", 20),
        file("hosts_4.bak", 30),
        file("hosts_5.bak", 0),
    ];
    assert_eq!(backups_newest_first(&files), vec![2, 4, 3, 0, 5]);
    assert_eq!(
        backups_to_prune(&files, 2),
        vec!["hosts_3.bak".to_string(), "hosts_1.bak".to_string(), "hosts_5.bak".to_string()]
    );
    assert!(backups_to_prune(&files, 5).is_empty());
    assert!(backups_to_prune(&files, 10).is_empty());
    assert_eq!(backups_to_prune(&files, 0).len(), 5);
}

#[test]
fn a_session_runs_in_order() {
    let mut step = Step::Plan;
    for (event, expected) in [
        (Event::Written, Step::Plan),
        (Event::Changed, Step::Confirm),
        (Event::BackupAttempted, Step::Confirm),
        (Event::Accepted, Step::Backup),
        (Event::BackupAttempted, Step::WriteDirect),
        (Event::Refused, Step::WriteElevated),
        (Event::Refused, Step::Done(Outcome::Failed)),
        (Event::Written, Step::Done(Outcome::Failed)),
    ] {
        step = next_step(step, event);
        assert_eq!(step, expected);
    }
    assert_eq!(next_step(Step::Plan, Event::Unchanged), Step::Done(Outcome::Unchanged));
    assert_eq!(next_step(Step::Confirm, Event::Declined), Step::Done(Outcome::Cancelled));
    assert_eq!(next_step(Step::WriteDirect, Event::Written), Step::Done(Outcome::Written));
    assert_eq!(next_step(Step::WriteElevated, Event::Written), Step::Done(Outcome::Written));
}

#[test]
fn answers_are_read_like_the_prompt_says() {
    for (answer, by_default, on_request) in [
        ("\n", true, false),
        ("y\n", true, true),
        ("YES\n", true, true),
        (" Yes ", true, true),
        ("n\n", false, false),
        ("No\n", false, false),
        ("nO", false, false),
        ("nope", true, false),
        ("yeah", true, false),
        ("ｎ", true, false),
    ] {
        assert_eq!(proceeds_by_default(answer), by_default, "{:?}", answer);
        assert_eq!(proceeds_on_request(answer), on_request, "{:?}", answer);
    }
    assert_eq!(answer_event("", true), Event::Accepted);
    assert_eq!(answer_event("", false), Event::Declined);
    assert_eq!(
        write_failure_message("denied", "no tty"),
        "Failed to write /etc/hosts with sudo: denied. Error: no tty. Please run with sudo or manually add entries."
    );
}

#[test]
fn managed_projects_are_listed_by_name() {
    let content = "# === oh-my-dockers start === zed\n127.0.0.1 z.local\n# === oh-my-dockers end === zed\n# === oh-my-dockers start === abc\n127.0.0.1 a.local\n127.0.0.1 b.local\n# === oh-my-dockers end === abc\n";
    let listed = list_managed_domains(content);
    assert_eq!(listed.len(), 2);
    assert_eq!(listed[0].name, "abc");
    assert_eq!(listed[0].domains, vec!["a.local".to_string(), "b.local".to_string()]);
    assert_eq!(listed[1].name, "zed");
    assert!(list_managed_domains("127.0.0.1 localhost\n").is_empty());
}

#[test]
fn a_project_needs_its_domain_and_one_per_route_or_service() {
    let compose = ComposeInfo::parse(
        "services:\n  web:\n    ports: ['8080:80']\n  db:\n    image: postgres\n  api:\n    container_name: the-api\n    ports: ['3000']\n",
    )
    .unwrap();
    assert_eq!(
        project_domains(&config(vec![]), &compose),
        vec!["shop.local".to_string(), "web.shop.local".to_string(), "api.shop.local".to_string()]
    );
    assert_eq!(
        project_domains(&config(vec![("admin", "web:80")]), &compose),
        vec!["shop.local".to_string(), "admin.shop.local".to_string()]
    );
    let entry = project_entry(&config(vec![]), "/srv/shop", &compose);
    assert_eq!(entry.name, "shop");
    assert_eq!(entry.path, "/srv/shop");
    assert_eq!(entry.domain, "shop.local");
    assert_eq!(entry.network, "shop-net");
    assert_eq!(entry.ports, vec![8080]);
    assert_eq!(entry.containers, vec!["shop-web-1", "shop-db-1", "the-api"]);

    let mut registry = PortRegistry::new();
    assert!(register_unless_conflict(&mut registry, entry).is_empty());
    assert!(registry.is_registered("shop"));
    let mut other = project_entry(&config(vec![]), "/srv/other", &compose);
    other.name = "other".to_string();
    let found = register_unless_conflict(&mut registry, other);
    assert_eq!(found, vec![(8080, "shop".to_string())]);
    assert!(!registry.is_registered("other"));
    let again = project_entry(&config(vec![]), "/srv/shop", &compose);
    assert!(register_unless_conflict(&mut registry, again).is_empty());
    assert_eq!(registry.len(), 1);
}

#[test]
fn proxy_configuration_of_a_project() {
    let compose = ComposeInfo::parse(
        "services:\n  web:\n    ports: ['8080:80', '9090:90']\n  db: {}\n",
    )
    .unwrap();
    assert_eq!(tls_mode(false, true, true), TlsMode::Off);
    assert_eq!(tls_mode(true, true, true), TlsMode::ProjectCertificate);
    assert_eq!(tls_mode(true, true, false), TlsMode::Internal);
    assert_eq!(cert_name("a.b.local"), "a_b_local");
    assert_eq!(
        generate_caddy_config(&config(vec![]), &compose, TlsMode::Off),
        "# Auto-generated Caddy configuration for shop\n# Domain: shop.local\n\nweb.shop.local {\n    reverse_proxy shop-web-1:80\n}\n\n"
    );
    assert_eq!(
        generate_caddy_config(&config(vec![("api", "bff:8080")]), &compose, TlsMode::ProjectCertificate),
        "# Auto-generated Caddy configuration for shop\n# Domain: shop.local\n\napi.shop.local {\n    tls /certs/shop_local.crt /certs/shop_local.key\n    reverse_proxy bff:8080\n}\n\n"
    );
    assert!(generate_caddy_config(&config(vec![]), &compose, TlsMode::Internal)
        .contains("web.shop.local {\n    tls internal\n    reverse_proxy"));
}

#[test]
fn port_mappings_of_the_container_engine() {
    let mappings = parse_port_mappings("0.0.0.0:8080->80/tcp, :::8443->443/udp,53/udp, 9000->9000,weird, a->b->c");
    let got: Vec<(&str, &str, &str)> = mappings
        .iter()
        .map(|m| (m.local_port.as_str(), m.internal_port.as_str(), m.protocol.as_str()))
        .collect();
    assert_eq!(
        got,
        vec![("8080", "80", "tcp"), ("8443", "443", "udp"), ("<none>", "53", "udp"), ("9000", "9000", "tcp")]
    );
    assert!(mappings[0].container.is_empty() && mappings[0].network.is_empty());
    assert!(parse_port_mappings("").is_empty());
}

#[test]
fn ports_are_formatted_for_display() {
    assert_eq!(format_ports(&vec![]), "none");
    assert_eq!(format_ports(&vec![80]), "80");
    assert_eq!(format_ports(&vec![80, 443, 8080]), "80, 443, 8080");
    let many: Vec<u16> = (10000..10020).collect();
    let text = format_ports(&many);
    assert_eq!(text.len(), 63);
    assert_eq!(text, "10000, 10001, 10002, 10003, 10004, 10005, 10006, 10007, 1000...");
}

#[test]
fn proxy_rules_are_written_and_read_back() {
    assert_eq!(rule_file_name("api.shop.local:8443"), "api_shop_local_8443.caddy");
    let text = proxy_rule_text("api.shop.local", "localhost:3000");
    assert_eq!(
        text,
        "# Auto-generated proxy rule\n# Domain: api.shop.local\n# Target: localhost:3000\n\napi.shop.local {\n    tls /certs/api_shop_local.crt /certs/api_shop_local.key\n    reverse_proxy localhost:3000\n}\n"
    );
    let rule = parse_proxy_rule(&text).unwrap();
    assert_eq!(rule.domain, "api.shop.local");
    assert_eq!(rule.target, "localhost:3000");
    let rule = parse_proxy_rule("x.local{\n  reverse_proxy a:1\n  reverse_proxy b:2\n}\n").unwrap();
    assert_eq!((rule.domain.as_str(), rule.target.as_str()), ("x.local", "b:2"));
    assert!(parse_proxy_rule("# nothing\n{\n}\n").is_none());
    assert!(parse_proxy_rule("x.local {\n}\n").is_none());
    assert!(parse_proxy_rule("reverse_proxy a:1\n").is_none());
}

#[test]
fn templates_are_taken_apart() {
    let template = "# comment\nservices:\n  db:\n    image: postgres\n\n    volumes:\n      - data:/var\nx-other:\n  ignored: true\nvolumes:\n  data:\n    driver: local\n  - odd\n\tdeep:\nnetworks:\n  net:\nservices:\n  late:\n";
    let parts = parse_template(template);
    assert_eq!(parts.services, "  db:\n    image: postgres\n    volumes:\n      - data:/var\n");
    assert_eq!(parts.volumes, "  data:\n    driver: local\n");
    let empty = parse_template("");
    assert!(empty.services.is_empty() && empty.volumes.is_empty());
}

#[test]
fn known_services() {
    assert!(is_http_service("n8n"));
    assert!(is_http_service("anything"));
    assert!(!is_http_service("postgres"));
    assert!(!is_http_service("redis"));
    assert!(is_known_http_service("ollama"));
    assert!(!is_known_http_service("anything"));
    assert_eq!(get_service_port("postgres", 100), "5432");
    assert_eq!(get_service_port("redis", 0), "6379");
    assert_eq!(get_service_port("surrealdb", 0), "8000");
    assert_eq!(get_service_port("chroma", 0), "8000");
    assert_eq!(get_service_port("ollama", 0), "11434");
    assert_eq!(get_service_port("n8n", 0), "5678");
    assert_eq!(get_service_port("web", 7), "8080");
    assert_eq!(offset_port(5432, 100), Some(5532));
    assert_eq!(offset_port(27017, 38518), Some(65535));
    assert_eq!(offset_port(27017, 38519), None);
}

#[test]
fn settings_paths_and_environment_files() {
    assert_eq!(
        update_config_paths("a = \"./projects\"\nb = \"./caddy/projects\"\nc = \"./init\"\nd = \"./templates/x\"\ne = \"./caddy/certs\"\n"),
        "a = \"projects\"\nb = \"caddy/projects\"\nc = \"init\"\nd = \"templates/x\"\ne = \"caddy/certs\"\n"
    );
    assert_eq!(
        parse_env("# comment\n\nA=1\n B = two words \nnoequals\nC==x\n=v\n"),
        vec![
            ("A".to_string(), "1".to_string()),
            ("B".to_string(), "two words".to_string()),
            ("C".to_string(), "=x".to_string()),
            ("".to_string(), "v".to_string()),
        ]
    );
}
