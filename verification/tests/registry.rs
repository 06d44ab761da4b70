use oh_my_dockers::registry::{PortRegistry, ProjectEntry};

fn entry(name: &str, path: &str, ports: Vec<u16>) -> ProjectEntry {
    ProjectEntry {
        name: name.to_string(),
        path: path.to_string(),
        domain: format!("{}.local", name),
        network: format!("{}-net", name),
        ports,
        containers: vec![format!("{}-postgres", name)],
    }
}

#[test]
fn test_port_conflict_detection() {
    let mut registry = PortRegistry::new();

    // Register first project
    let entry1 = ProjectEntry {
        name: "project-a".to_string(),
        path: "/path/to/project-a".to_string(),
        domain: "project-a.local".to_string(),
        network: "project-a-net".to_string(),
        ports: vec![5432, 6379, 8080],
        containers: vec!["project-a-postgres".to_string()],
    };
    registry.register_project(entry1);

    // Check for conflicts with overlapping ports
    let conflicts = registry.check_port_conflicts("project-b", &[5432, 3000]);
    assert_eq!(conflicts.len(), 1);
    assert_eq!(conflicts[0].0, 5432);
    assert_eq!(conflicts[0].1, "project-a");

    // Check for conflicts with no overlapping ports
    let conflicts = registry.check_port_conflicts("project-b", &[3000, 3001]);
    assert_eq!(conflicts.len(), 0);
}

#[test]
fn test_project_registration() {
    let mut registry = PortRegistry::new();

    let entry = ProjectEntry {
        name: "test-project".to_string(),
        path: "/path/to/test".to_string(),
        domain: "test.local".to_string(),
        network: "test-net".to_string(),
        ports: vec![5432],
        containers: vec!["test-postgres".to_string()],
    };

    registry.register_project(entry);

    assert!(registry.is_registered("test-project"));
    assert!(registry.is_registered_by_path("/path/to/test"));

    let retrieved = registry.get_project("test-project").unwrap();
    assert_eq!(retrieved.name, "test-project");
    assert_eq!(retrieved.ports.len(), 1);
}

#[test]
fn conflict_symmetry() {
    let mut registry = PortRegistry::new();
    registry.register_project(entry("A", "/a", vec![80, 81]));
    let conflicts = registry.check_port_conflicts("B", &[81, 82]);
    assert_eq!(conflicts, vec![(81, "A".to_string())]);
    let own = registry.check_port_conflicts("A", &[80, 81]);
    assert!(own.is_empty());
}

#[test]
fn conflicts_come_port_by_port_then_project_by_project() {
    let mut registry = PortRegistry::new();
    registry.register_project(entry("a", "/a", vec![80, 443]));
    registry.register_project(entry("b", "/b", vec![443, 8080]));
    registry.register_project(entry("c", "/c", vec![80]));
    let conflicts = registry.check_port_conflicts("c", &[443, 80, 1]);
    assert_eq!(
        conflicts,
        vec![(443, "a".to_string()), (443, "b".to_string()), (80, "a".to_string())]
    );
}

#[test]
fn registering_again_replaces_the_entry() {
    let mut registry = PortRegistry::new();
    registry.register_project(entry("a", "/a", vec![80]));
    registry.register_project(entry("b", "/b", vec![81]));
    registry.register_project(entry("a", "/a2", vec![90]));
    assert_eq!(registry.len(), 2);
    assert_eq!(registry.get_project("a").unwrap().ports, vec![90]);
    assert_eq!(registry.get_project_by_path("/a2").unwrap().name, "a");
    assert!(registry.get_project_by_path("/a").is_none());
    assert_eq!(registry.get_all_used_ports(), vec![90, 81]);
}

#[test]
fn unregistering_removes_and_tolerates_absence() {
    let mut registry = PortRegistry::new();
    registry.register_project(entry("a", "/a", vec![80]));
    registry.unregister_project("missing");
    assert_eq!(registry.len(), 1);
    registry.unregister_project("a");
    assert_eq!(registry.len(), 0);
    assert!(!registry.is_registered("a"));
    assert!(!registry.is_registered_by_path("/a"));
    assert!(registry.get_project("a").is_none());
}

#[test]
fn projects_are_listed_by_name() {
    let mut registry = PortRegistry::default();
    registry.register_project(entry("zeta", "/z", vec![]));
    registry.register_project(entry("alpha", "/a", vec![]));
    registry.register_project(entry("Beta", "/b", vec![]));
    registry.register_project(entry("alpha2", "/a2", vec![]));
    let names: Vec<&str> = registry.list_projects().iter().map(|e| e.name.as_str()).collect();
    assert_eq!(names, vec!["Beta", "alpha", "alpha2", "zeta"]);
}

#[test]
fn a_registry_is_loaded_from_its_entries() {
    let registry = PortRegistry::load(vec![
        entry("b", "/b", vec![2]),
        entry("a", "/a", vec![1]),
        entry("b", "/b2", vec![3]),
    ]);
    assert_eq!(registry.len(), 2);
    assert_eq!(registry.get_project("b").unwrap().path, "/b2");
    assert_eq!(registry.get_all_used_ports(), vec![3, 1]);
    assert_eq!(PortRegistry::load(vec![]).len(), 0);
}
