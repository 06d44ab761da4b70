use oh_my_dockers::generator::{
    available_services, find_available_port, generate_compose_content, generate_service_block,
    resolve_service_ports, try_find_available_port, SelectedService, ServiceTemplate,
};
use oh_my_dockers::registry::{PortRegistry, ProjectEntry};

#[test]
fn test_find_available_port() {
    let used = vec![5432, 5433, 6379];

    assert_eq!(find_available_port(5432, &used), 5434);
    assert_eq!(find_available_port(6380, &used), 6380);
    assert_eq!(find_available_port(6379, &used), 6380);
}

#[test]
fn test_generate_compose_content() {
    let services = vec![SelectedService {
        template: available_services().remove(0), // PostgreSQL
        host_port: 5432,
    }];

    let content = generate_compose_content("myproject", "myproject-net", &services);

    assert!(content.contains("postgres:latest"));
    assert!(content.contains("myproject-postgres"));
    assert!(content.contains("5432:5432"));
    assert!(content.contains("POSTGRES_USER"));
}

#[test]
fn no_port_is_left_at_the_top() {
    assert_eq!(try_find_available_port(65535, &vec![65535]), None);
    assert_eq!(try_find_available_port(65534, &vec![65534]), Some(65535));
    assert_eq!(try_find_available_port(0, &vec![]), Some(0));
    assert_eq!(try_find_available_port(10, &vec![12, 11, 10, 14]), Some(13));
}

#[test]
fn compose_content_is_exact() {
    let services = vec![
        SelectedService { template: available_services().remove(1), host_port: 6380 },
        SelectedService {
            template: ServiceTemplate {
                name: "web".to_string(),
                display_name: "Web".to_string(),
                image: "nginx:1".to_string(),
                default_port: 80,
                container_port: 8080,
                environment: vec![("A".to_string(), "b".to_string())],
                volumes: vec!["site:/srv:ro".to_string(), "plain".to_string()],
            },
            host_port: 0,
        },
    ];
    let content = generate_compose_content("p", "p-net", &services);
    let expected = "# Generated by oh-my-dockers\nservices:\n  redis:\n    image: redis:latest\n    container_name: p-redis\n    restart: unless-stopped\n    ports:\n      - \"6380:6379\"\n    volumes:\n      - redis_data:/data\n    networks:\n      - p-net\n\n  web:\n    image: nginx:1\n    container_name: p-web\n    restart: unless-stopped\n    ports:\n      - \"0:8080\"\n    environment:\n      A: b\n    volumes:\n      - site:/srv:ro\n      - plain\n    networks:\n      - p-net\n\n\nvolumes:\n  redis_data:\n  site:\n  plain:\n\nnetworks:\n  p-net:\n";
    assert_eq!(content, expected);
    assert_eq!(
        generate_compose_content("p", "n", &vec![]),
        "# Generated by oh-my-dockers\nservices:\n\nnetworks:\n  n:\n"
    );
    let block = generate_service_block("p", "p-net", &services[0]);
    assert!(expected.contains(&block));
}

#[test]
fn templates_on_offer() {
    let all = available_services();
    let names: Vec<&str> = all.iter().map(|t| t.name.as_str()).collect();
    assert_eq!(names, vec!["postgres", "redis", "kafka"]);
    assert_eq!(all[0].default_port, 5432);
    assert_eq!(all[0].environment.len(), 3);
    assert_eq!(all[2].image, "apache/kafka:latest");
    assert_eq!(all[2].environment.len(), 8);
    assert_eq!(all[1].duplicate().volumes, vec!["redis_data:/data".to_string()]);
}

#[test]
fn selected_services_avoid_used_ports_and_each_other() {
    let mut registry = PortRegistry::new();
    registry.register_project(ProjectEntry {
        name: "a".to_string(),
        path: "/a".to_string(),
        domain: "a.local".to_string(),
        network: "a-net".to_string(),
        ports: vec![5432, 6379],
        containers: vec![],
    });
    let templates = available_services();
    let services = resolve_service_ports(&templates, &vec![0, 0, 1], &registry).unwrap();
    let ports: Vec<u16> = services.iter().map(|s| s.host_port).collect();
    assert_eq!(ports, vec![5433, 5434, 6380]);
    assert_eq!(services[2].template.name, "redis");
    assert!(resolve_service_ports(&templates, &vec![3], &registry).is_none());
    assert_eq!(resolve_service_ports(&templates, &vec![], &registry).unwrap().len(), 0);
}
