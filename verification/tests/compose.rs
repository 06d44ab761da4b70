use oh_my_dockers::compose::{
    ensure_network_external, mark_network_external, parse_ports, ComposeError, ComposeInfo,
};
use oh_my_dockers::yaml::{parse_yaml, render_yaml, YamlError, YamlValue};

#[test]
fn test_parse_simple_compose() {
    let yaml = r#"
services:
  postgres:
    image: postgres:latest
    container_name: my-postgres
    ports:
      - "5432:5432"
    networks:
      - mynet

  redis:
    image: redis:latest
    ports:
      - "6379:6379"
    networks:
      - mynet

networks:
  mynet:
"#;

    let info = ComposeInfo::parse(yaml).unwrap();

    assert_eq!(info.services.len(), 2);

    let postgres = info.get_service("postgres").unwrap();
    assert_eq!(postgres.container_name, Some("my-postgres".to_string()));
    assert_eq!(postgres.host_ports, vec![5432]);
    assert_eq!(postgres.container_ports, vec![5432]);
    assert_eq!(postgres.networks, vec!["mynet"]);

    let redis = info.get_service("redis").unwrap();
    assert_eq!(redis.container_name, None);
    assert_eq!(redis.host_ports, vec![6379]);
}

#[test]
fn test_parse_port_ranges() {
    let yaml = r#"
services:
  app:
    image: app:latest
    ports:
      - "8080-8085:8080"
"#;

    let info = ComposeInfo::parse(yaml).unwrap();
    let app = info.get_service("app").unwrap();

    assert_eq!(app.host_ports.len(), 6);
    assert!(app.host_ports.contains(&8080));
    assert!(app.host_ports.contains(&8085));
    assert_eq!(app.host_ports, vec![8080, 8081, 8082, 8083, 8084, 8085]);
    assert_eq!(app.container_ports, vec![8080]);
}

#[test]
fn test_parse_long_syntax_ports() {
    let yaml = r#"
services:
  app:
    image: app:latest
    ports:
      - target: 80
        published: 8080
        protocol: tcp
"#;

    let info = ComposeInfo::parse(yaml).unwrap();
    let app = info.get_service("app").unwrap();

    assert_eq!(app.host_ports, vec![8080]);
    assert_eq!(app.container_ports, vec![80]);
}

#[test]
fn test_ensure_network_external_updates_non_external() {
    let yaml = r#"
services:
  app:
    image: app:latest
    networks:
      - mynet

networks:
  mynet:
"#;

    let written = ensure_network_external(yaml, "mynet").unwrap();
    let content = written.expect("the flag has to be set");
    assert!(content.contains("external: true") || content.contains("external:true"));
}

#[test]
fn test_ensure_network_external_already_external() {
    let yaml = r#"
services:
  app:
    image: app:latest
    networks:
      - mynet

networks:
  mynet:
    external: true
"#;

    let modified = ensure_network_external(yaml, "mynet").unwrap();
    assert!(modified.is_none());
}

#[test]
fn test_ensure_network_external_unknown_network() {
    let yaml = r#"
services:
  app:
    image: app:latest

networks:
  other-net:
"#;

    let modified = ensure_network_external(yaml, "mynet").unwrap();
    assert!(modified.is_none());
}

#[test]
fn ensure_network_external_twice_is_true_then_false() {
    let yaml = "services:\n  app:\n    image: app:latest\nnetworks:\n  mynet:\n    driver: bridge\n  other: {}\n";
    let first = ensure_network_external(yaml, "mynet").unwrap().unwrap();
    assert_eq!(
        first,
        "services:\n  app:\n    image: app:latest\nnetworks:\n  mynet:\n    driver: bridge\n    external: true\n  other: {}\n"
    );
    let second = ensure_network_external(&first, "mynet").unwrap();
    assert!(second.is_none());
}

#[test]
fn external_false_is_turned_to_true_in_place() {
    let yaml = "networks:\n  mynet:\n    external: false\n    name: shared\n";
    let first = ensure_network_external(yaml, "mynet").unwrap().unwrap();
    assert_eq!(first, "networks:\n  mynet:\n    external: true\n    name: shared\n");
}

#[test]
fn scalar_network_declaration_is_left_alone() {
    let yaml = "networks:\n  mynet: something\n";
    assert!(ensure_network_external(yaml, "mynet").unwrap().is_none());
}

#[test]
fn broken_manifest_is_a_syntax_error() {
    let r = ComposeInfo::parse("services: [unclosed");
    match r {
        Err(ComposeError::Yaml(YamlError::Syntax(m))) => assert!(!m.is_empty()),
        other => panic!("unexpected {:?}", other),
    }
    let r = ensure_network_external("a: [", "x");
    assert!(matches!(r, Err(ComposeError::Yaml(YamlError::Syntax(_)))));
}

#[test]
fn service_name_must_be_a_string() {
    let r = ComposeInfo::parse("services:\n  1:\n    image: x\n");
    match r {
        Err(e) => {
            assert!(matches!(e, ComposeError::ServiceName));
            assert_eq!(e.message(), "Service name is not a string");
        }
        Ok(_) => panic!("a number is no service name"),
    }
}

#[test]
fn manifest_without_services_has_none() {
    assert_eq!(ComposeInfo::parse("version: '3'\n").unwrap().services.len(), 0);
    assert_eq!(ComposeInfo::parse("services: 3\n").unwrap().services.len(), 0);
}

fn ports_of(entries: Vec<YamlValue>) -> (Vec<u16>, Vec<u16>) {
    let config = YamlValue::Mapping(vec![(
        YamlValue::String("ports".to_string()),
        YamlValue::Sequence(entries),
    )]);
    parse_ports(&config)
}

fn short(text: &str) -> (Vec<u16>, Vec<u16>) {
    ports_of(vec![YamlValue::String(text.to_string())])
}

#[test]
fn port_string_grammar() {
    assert_eq!(short("80"), (vec![], vec![80]));
    assert_eq!(short("80/udp"), (vec![], vec![80]));
    assert_eq!(short("8080:80"), (vec![8080], vec![80]));
    assert_eq!(short("8080:80/tcp"), (vec![8080], vec![80]));
    assert_eq!(short("127.0.0.1:8080:80"), (vec![8080], vec![80]));
    assert_eq!(short("127.0.0.1:8000-8002:80/tcp"), (vec![8000, 8001, 8002], vec![80]));
    assert_eq!(short("9000-8999:80"), (vec![], vec![80]));
    assert_eq!(short("1-2-3:80"), (vec![], vec![80]));
    assert_eq!(short("a:b:c:d"), (vec![], vec![]));
    assert_eq!(short("http:web"), (vec![], vec![]));
    assert_eq!(short("65535:65535"), (vec![65535], vec![65535]));
    assert_eq!(short("65536:65536"), (vec![], vec![]));
    assert_eq!(short("+80:+81"), (vec![80], vec![81]));
    assert_eq!(short(" 80:81"), (vec![], vec![81]));
    assert_eq!(short("65534-65535:1"), (vec![65534, 65535], vec![1]));
    assert_eq!(short(":80"), (vec![], vec![80]));
    assert_eq!(short("0008080:00080"), (vec![8080], vec![80]));
}

#[test]
fn long_form_ports() {
    let entry = |published: YamlValue, target: YamlValue| {
        YamlValue::Mapping(vec![
            (YamlValue::String("target".to_string()), target),
            (YamlValue::String("published".to_string()), published),
        ])
    };
    let n = |s: &str| YamlValue::Number(s.to_string());
    let s = |s: &str| YamlValue::String(s.to_string());
    assert_eq!(ports_of(vec![entry(n("8080"), n("80"))]), (vec![8080], vec![80]));
    assert_eq!(ports_of(vec![entry(s("8080"), s("80"))]), (vec![8080], vec![80]));
    assert_eq!(ports_of(vec![entry(n("70000"), n("-1"))]), (vec![], vec![]));
    assert_eq!(ports_of(vec![entry(n("70000"), n("80"))]), (vec![], vec![80]));
    assert_eq!(ports_of(vec![entry(n("65535"), n("65536"))]), (vec![65535], vec![]));
    assert_eq!(ports_of(vec![entry(s("70000"), s("80"))]), (vec![], vec![80]));
    assert_eq!(ports_of(vec![entry(s("x"), n("1.5"))]), (vec![], vec![]));
    assert_eq!(
        ports_of(vec![YamlValue::Bool(true), YamlValue::Null, entry(n("1"), n("2")), s("3:4")]),
        (vec![1, 3], vec![2, 4])
    );
}

#[test]
fn networks_in_both_forms() {
    let info = ComposeInfo::parse(
        "services:\n  a:\n    networks: [n1, 2, n2]\n  b:\n    networks:\n      n2: {}\n      n3:\n  c:\n    networks: n1\n",
    )
    .unwrap();
    assert_eq!(info.get_service("a").unwrap().networks, vec!["n1", "n2"]);
    assert_eq!(info.get_service("b").unwrap().networks, vec!["n2", "n3"]);
    assert!(info.get_service("c").unwrap().networks.is_empty());
    let on: Vec<&str> = info.get_services_on_network("n2").iter().map(|s| s.name.as_str()).collect();
    assert_eq!(on, vec!["a", "b"]);
    assert!(info.get_services_on_network("none").is_empty());
}

#[test]
fn host_ports_are_sorted_and_distinct() {
    let info = ComposeInfo::parse(
        "services:\n  a:\n    ports: ['9000:1', '80:2', '443:3']\n  b:\n    ports: ['80:80', '70-72:1', '9000:9']\n  c: {}\n",
    )
    .unwrap();
    assert_eq!(info.get_all_host_ports(), vec![70, 71, 72, 80, 443, 9000]);
}

#[test]
fn container_names_are_explicit_or_synthesized() {
    let info = ComposeInfo::parse(
        "services:\n  db:\n    container_name: my-db\n  web: {}\n",
    )
    .unwrap();
    assert_eq!(
        info.get_all_container_names("proj"),
        vec!["my-db".to_string(), "proj-web-1".to_string()]
    );
}

#[test]
fn documents_round_trip_through_plain_values() {
    let text = "a: 1\nb:\n- x\n- -2\n- 1.5\n- true\n- null\n- !tag\n  k: v\n";
    let doc = parse_yaml(text).unwrap();
    assert!(doc.is_well_tagged());
    assert_eq!(render_yaml(&doc).unwrap(), text);
    assert_eq!(doc.get("a").unwrap().as_u64(), Some(1));
    let items = doc.get("b").unwrap().as_sequence().unwrap();
    assert_eq!(items.len(), 6);
    assert_eq!(items[0].as_str().map(|s| s.as_str()), Some("x"));
    assert_eq!(items[1].as_u64(), None);
    assert_eq!(items[3].as_bool(), Some(true));
    assert!(items[4].is_null());
    assert_eq!(items[5].get("k").unwrap().as_str().map(|s| s.as_str()), Some("v"));
    assert!(items[5].as_mapping().is_some());
    let copy = doc.duplicate();
    assert_eq!(render_yaml(&copy).unwrap(), text);
}

#[test]
fn empty_tag_is_refused() {
    let doc = YamlValue::Tagged(String::new(), Box::new(YamlValue::Null));
    assert!(matches!(render_yaml(&doc), Err(YamlError::EmptyTag)));
    let bad = YamlValue::Number("abc".to_string());
    assert!(matches!(render_yaml(&bad), Err(YamlError::Unwritable(_))));
}

#[test]
fn marking_works_on_documents() {
    let doc = parse_yaml("networks:\n  n: !keep\n    driver: bridge\n").unwrap();
    let marked = mark_network_external(&doc, "n").unwrap();
    assert_eq!(
        render_yaml(&marked).unwrap(),
        "networks:\n  n: !keep\n    driver: bridge\n    external: true\n"
    );
    assert!(mark_network_external(&marked, "n").is_none());
    assert!(mark_network_external(&doc, "m").is_none());
}

#[test]
fn a_number_above_the_port_range_is_no_port() {
    let info = ComposeInfo::parse(
        "services:\n  app:\n    ports:\n      - target: 80\n        published: 70000\n",
    )
    .unwrap();
    let app = info.get_service("app").unwrap();
    assert!(app.host_ports.is_empty());
    assert!(!app.host_ports.contains(&4464));
    assert_eq!(app.container_ports, vec![80]);
    assert!(info.get_all_host_ports().is_empty());
}
