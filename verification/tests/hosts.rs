use oh_my_dockers::hosts::parse_hosts_file;
use oh_my_dockers::plan::{
    add_project_domains, cleanup_all_domains, remove_project_domains, SkipReason,
};
use oh_my_dockers::reconcile::{build_hosts_content, find_unmanaged_domains};

#[test]
fn test_parse_hosts_file() {
    let content = r#"127.0.0.1 localhost
::1 localhost

# === oh-my-dockers start === project-a
# oh-my-dockers project-a
127.0.0.1 project-a.local
127.0.0.1 api.project-a.local
# === oh-my-dockers end === project-a

# === oh-my-dockers start === project-b
# oh-my-dockers project-b
127.0.0.1 project-b.local
# === oh-my-dockers end === project-b
"#;

    let (lines, sections) = parse_hosts_file(content);

    assert_eq!(lines.len(), 13);
    assert_eq!(sections.len(), 2);

    let section_a = sections.get("project-a").unwrap();
    assert_eq!(section_a.domains.len(), 2);
    assert!(section_a.domains.contains(&"project-a.local".to_string()));
    assert!(section_a.domains.contains(&"api.project-a.local".to_string()));

    let section_b = sections.get("project-b").unwrap();
    assert_eq!(section_b.domains.len(), 1);
    assert!(section_b.domains.contains(&"project-b.local".to_string()));
}

#[test]
fn test_build_hosts_content_add() {
    let content = "127.0.0.1 localhost\n::1 localhost\n";
    let (lines, sections) = parse_hosts_file(content);

    let new_domains = vec!["test.local".to_string(), "api.test.local".to_string()];
    let result = build_hosts_content(&lines, &sections, "test-project", Some(&new_domains));

    assert!(result.contains("# === oh-my-dockers start === test-project"));
    assert!(result.contains("127.0.0.1 test.local"));
    assert!(result.contains("127.0.0.1 api.test.local"));
    assert!(result.contains("# === oh-my-dockers end === test-project"));
}

#[test]
fn test_build_hosts_content_remove() {
    let content = r#"127.0.0.1 localhost

# === oh-my-dockers start === test-project
# oh-my-dockers test-project
127.0.0.1 test.local
# === oh-my-dockers end === test-project
"#;
    let (lines, sections) = parse_hosts_file(content);

    let result = build_hosts_content(&lines, &sections, "test-project", None);

    assert!(!result.contains("test-project"));
    assert!(!result.contains("test.local"));
    assert!(result.contains("127.0.0.1 localhost"));
}

#[test]
fn build_hosts_content_gives_the_exact_text() {
    let content = "127.0.0.1 localhost\n::1 localhost\n\n\n";
    let (lines, sections) = parse_hosts_file(content);
    let new_domains = vec!["a.local".to_string(), "b.a.local".to_string()];
    let result = build_hosts_content(&lines, &sections, "a", Some(&new_domains));
    assert_eq!(
        result,
        "127.0.0.1 localhost\n::1 localhost\n\n# === oh-my-dockers start === a\n# oh-my-dockers a\n127.0.0.1 a.local\n127.0.0.1 b.a.local\n# === oh-my-dockers end === a\n"
    );
}

#[test]
fn parse_lines_like_the_standard_library() {
    for text in [
        "",
        "\n",
        "a",
        "a\n",
        "a\r\n",
        "a\r",
        "a\r\r\n",
        "\r\n\r\n",
        "a\n\nb",
        "a\nb\r\n\r\nc\r",
        "\u{2003} x \u{85}\n",
    ] {
        let (lines, _) = parse_hosts_file(text);
        let expected: Vec<String> = text.lines().map(|s| s.to_string()).collect();
        assert_eq!(lines, expected, "for {:?}", text);
    }
}

#[test]
fn two_well_formed_sections_are_read_back() {
    let content = "# === oh-my-dockers start === a\n127.0.0.1 a.local\n# === oh-my-dockers end === a\n# === oh-my-dockers start === b\n127.0.0.1 b.local\n127.0.0.1 c.local\n# === oh-my-dockers end === b\n";
    let (_, sections) = parse_hosts_file(content);
    assert_eq!(sections.len(), 2);
    let a = sections.get("a").unwrap();
    assert_eq!(a.domains, vec!["a.local".to_string()]);
    assert_eq!((a.start_line, a.end_line), (0, 3));
    let b = sections.get("b").unwrap();
    assert_eq!(b.domains, vec!["b.local".to_string(), "c.local".to_string()]);
    assert_eq!((b.start_line, b.end_line), (3, 7));
}

#[test]
fn unclosed_section_spans_to_the_end_of_the_file() {
    let content = "127.0.0.1 localhost\n# === oh-my-dockers start === a\n127.0.0.1 a.local\n";
    let (lines, sections) = parse_hosts_file(content);
    assert_eq!(lines.len(), 3);
    assert_eq!(sections.len(), 1);
    let a = sections.get("a").unwrap();
    assert_eq!(a.domains, vec!["a.local".to_string()]);
    assert_eq!(a.start_line, 1);
    assert_eq!(a.end_line, 3);
}

#[test]
fn mismatched_end_marker_is_ignored() {
    let content = "# === oh-my-dockers start === a\n127.0.0.1 a.local\n# === oh-my-dockers end === b\n127.0.0.1 b.local\n# === oh-my-dockers end ===\n127.0.0.1 c.local\n";
    let (_, sections) = parse_hosts_file(content);
    assert_eq!(sections.len(), 1);
    let a = sections.get("a").unwrap();
    assert_eq!(a.domains, vec!["a.local".to_string(), "b.local".to_string()]);
    assert_eq!(a.end_line, 5);
    assert!(sections.get("b").is_none());
}

#[test]
fn a_new_start_marker_opens_afresh() {
    let content = "# === oh-my-dockers start === a\n127.0.0.1 a.local\n# === oh-my-dockers start === b\n127.0.0.1 b.local\n# === oh-my-dockers end === b\n";
    let (_, sections) = parse_hosts_file(content);
    assert_eq!(sections.len(), 1);
    assert!(sections.get("a").is_none());
    assert_eq!(sections.get("b").unwrap().domains, vec!["b.local".to_string()]);
    assert!(sections.contains_key("b"));
    assert!(!sections.is_empty());
}

#[test]
fn unmanaged_domains_are_those_outside_the_sections() {
    let content = "127.0.0.1 localhost\n  127.0.0.1\tx.local alias\n127.0.0.1\n10.0.0.1 other\n# === oh-my-dockers start === a\n127.0.0.1 a.local\n# === oh-my-dockers end === a\n127.0.0.1 localhost\n";
    let (lines, sections) = parse_hosts_file(content);
    let found = find_unmanaged_domains(&lines, &sections);
    assert_eq!(found, vec!["localhost".to_string(), "x.local".to_string()]);
}

#[test]
fn reconcile_writes_and_then_does_nothing() {
    let content = "127.0.0.1 localhost\n";
    let desired = vec!["a.local".to_string(), "api.a.local".to_string(), "a.local".to_string()];
    let first = add_project_domains(content, "a", &desired);
    assert!(first.changed);
    assert_eq!(first.applied, vec!["a.local".to_string(), "api.a.local".to_string()]);
    assert!(first.skipped.is_empty());
    assert!(first.previous.is_none());
    assert_eq!(
        first.new_content,
        "127.0.0.1 localhost\n\n# === oh-my-dockers start === a\n# oh-my-dockers a\n127.0.0.1 a.local\n127.0.0.1 api.a.local\n# === oh-my-dockers end === a\n"
    );

    let second = add_project_domains(&first.new_content, "a", &desired);
    assert!(!second.changed);
    assert_eq!(second.new_content, first.new_content);
    assert_eq!(second.applied, vec!["a.local".to_string(), "api.a.local".to_string()]);

    let (_, sections) = parse_hosts_file(&first.new_content);
    let written = sections.get("a").unwrap();
    let mut got = written.domains.clone();
    got.sort();
    assert_eq!(got, vec!["a.local".to_string(), "api.a.local".to_string()]);
}

#[test]
fn unmanaged_entry_is_protected() {
    let content = "127.0.0.1 localhost\n127.0.0.1 x.local\n";
    let desired = vec!["x.local".to_string(), "y.local".to_string()];
    let plan = add_project_domains(content, "a", &desired);
    assert!(plan.changed);
    assert_eq!(plan.applied, vec!["y.local".to_string()]);
    assert_eq!(plan.skipped.len(), 1);
    assert_eq!(plan.skipped[0].domain, "x.local");
    assert!(matches!(plan.skipped[0].reason, SkipReason::Unmanaged));
    assert_eq!(plan.skipped[0].reason.message(), "unmanaged entry exists");
    assert_eq!(plan.new_content.matches("x.local").count(), 1);
}

#[test]
fn domain_of_another_project_is_skipped() {
    let content = "# === oh-my-dockers start === b\n127.0.0.1 shared.local\n# === oh-my-dockers end === b\n127.0.0.1 shared.local\n";
    let desired = vec!["shared.local".to_string()];
    let plan = add_project_domains(content, "a", &desired);
    assert!(!plan.changed);
    assert!(plan.applied.is_empty());
    assert_eq!(plan.skipped.len(), 1);
    assert!(matches!(&plan.skipped[0].reason, SkipReason::OwnedBy(p) if p == "b"));
    assert_eq!(plan.skipped[0].reason.message(), "owned by project b");
    assert_eq!(plan.new_content, content);
}

#[test]
fn section_is_replaced_in_place_of_the_old_one() {
    let content = "127.0.0.1 localhost\n# === oh-my-dockers start === a\n# oh-my-dockers a\n127.0.0.1 old.local\n# === oh-my-dockers end === a\n# tail\n\n";
    let desired = vec!["new.local".to_string()];
    let plan = add_project_domains(content, "a", &desired);
    assert!(plan.changed);
    assert_eq!(plan.previous, Some(vec!["old.local".to_string()]));
    assert_eq!(
        plan.new_content,
        "127.0.0.1 localhost\n# tail\n\n# === oh-my-dockers start === a\n# oh-my-dockers a\n127.0.0.1 new.local\n# === oh-my-dockers end === a\n"
    );
}

#[test]
fn remove_is_a_no_op_without_a_section() {
    let content = "127.0.0.1 localhost\n\n";
    let plan = remove_project_domains(content, "a");
    assert!(!plan.changed);
    assert_eq!(plan.new_content, content);
}

#[test]
fn remove_takes_the_section_out() {
    let content = "127.0.0.1 localhost\n\n# === oh-my-dockers start === a\n# oh-my-dockers a\n127.0.0.1 a.local\n# === oh-my-dockers end === a\n";
    let plan = remove_project_domains(content, "a");
    assert!(plan.changed);
    assert!(plan.applied.is_empty());
    assert_eq!(plan.new_content, "127.0.0.1 localhost\n");
    let again = remove_project_domains(&plan.new_content, "a");
    assert!(!again.changed);
}

#[test]
fn cleanup_removes_every_section_in_one_pass() {
    let content = "127.0.0.1 localhost\n\n# === oh-my-dockers start === a\n127.0.0.1 a.local\n# === oh-my-dockers end === a\n# between\n# === oh-my-dockers start === b\n127.0.0.1 b.local\n# === oh-my-dockers end === b\n\n";
    let plan = cleanup_all_domains(content);
    assert!(plan.changed);
    assert_eq!(plan.removed.len(), 2);
    assert_eq!(plan.new_content, "127.0.0.1 localhost\n\n# between\n");
    let again = cleanup_all_domains(&plan.new_content);
    assert!(!again.changed);
    assert_eq!(again.new_content, plan.new_content);
}

#[test]
fn remove_leaves_a_section_without_domains_as_it_is() {
    let content = "127.0.0.1 localhost\n# === oh-my-dockers start === a\n# oh-my-dockers a\n# === oh-my-dockers end === a\n";
    let plan = remove_project_domains(content, "a");
    assert!(!plan.changed);
    assert_eq!(plan.new_content, content);
    assert_eq!(plan.previous, Some(vec![]));
}

#[test]
fn unmanaged_entry_stays_the_only_line_for_its_domain() {
    let content = "127.0.0.1 x.local\n# === oh-my-dockers start === a\n# oh-my-dockers a\n127.0.0.1 old.local\n# === oh-my-dockers end === a\n\n";
    let desired = vec!["x.local".to_string()];
    let plan = add_project_domains(content, "a", &desired);
    assert!(plan.changed);
    assert!(plan.applied.is_empty());
    assert_eq!(plan.new_content, "127.0.0.1 x.local\n");
    let (lines, sections) = parse_hosts_file(&plan.new_content);
    assert_eq!(lines.iter().filter(|l| l.contains("x.local")).count(), 1);
    assert!(sections.is_empty());

    let desired = vec!["x.local".to_string(), "y.local".to_string()];
    let plan = add_project_domains(content, "a", &desired);
    let (lines, sections) = parse_hosts_file(&plan.new_content);
    assert_eq!(lines.iter().filter(|l| l.contains("x.local")).count(), 1);
    assert_eq!(sections.len(), 1);
    assert_eq!(sections.section(0).project_name, "a");
    assert_eq!(sections.section(0).domains, vec!["y.local".to_string()]);
}
