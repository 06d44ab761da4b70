use oh_my_dockers::blocks::HostsFile;
use oh_my_dockers::diff::{block_changes, extract_managed_blocks, hosts_entry};

#[test]
fn test_parse_managed_blocks() {
    let content = vec![
        "127.0.0.1 localhost".to_string(),
        "".to_string(),
        "# oh-my-dockers: daily".to_string(),
        "127.0.0.1 daily.local *.daily.local".to_string(),
        "# oh-my-dockers: end".to_string(),
        "".to_string(),
        "192.168.1.1 example.com".to_string(),
    ];

    let blocks = HostsFile::find_managed_blocks(&content);
    assert_eq!(blocks.len(), 1);
    assert_eq!(blocks.get("daily"), Some((2, 4)));
}

#[test]
fn block_without_end_covers_its_marker_only() {
    let content = vec!["# oh-my-dockers: a".to_string(), "127.0.0.1 a.local".to_string()];
    let blocks = HostsFile::find_managed_blocks(&content);
    assert_eq!(blocks.get("a"), Some((0, 0)));
    assert_eq!(blocks.get("b"), None);
}

#[test]
fn entries_are_added_replaced_and_removed() {
    let mut file = HostsFile::load("127.0.0.1 localhost\n");
    assert!(!file.has_project("a"));
    file.add_entry("a", "# oh-my-dockers: a\n127.0.0.1 a.local\n# oh-my-dockers: end");
    assert!(file.has_project("a"));
    assert_eq!(
        file.to_string(),
        "127.0.0.1 localhost\n\n# oh-my-dockers: a\n127.0.0.1 a.local\n# oh-my-dockers: end\n"
    );
    file.add_entry("b", "# oh-my-dockers: b\n127.0.0.1 b.local\n# oh-my-dockers: end");
    file.add_entry("a", "# oh-my-dockers: a\n127.0.0.1 a2.local\n# oh-my-dockers: end");
    assert_eq!(
        file.to_string(),
        "127.0.0.1 localhost\n\n# oh-my-dockers: b\n127.0.0.1 b.local\n# oh-my-dockers: end\n\n# oh-my-dockers: a\n127.0.0.1 a2.local\n# oh-my-dockers: end\n"
    );
    assert_eq!(file.list_managed_projects(), vec!["a".to_string(), "b".to_string()]);
    file.remove_entry("b");
    file.remove_entry("missing");
    assert_eq!(
        file.to_string(),
        "127.0.0.1 localhost\n\n# oh-my-dockers: a\n127.0.0.1 a2.local\n# oh-my-dockers: end\n"
    );
    file.remove_entry("a");
    assert_eq!(file.to_string(), "127.0.0.1 localhost\n");
    assert!(file.list_managed_projects().is_empty());
}

#[test]
fn block_texts_and_changes() {
    let old = "127.0.0.1 localhost\n# oh-my-dockers: a\n127.0.0.1 a.local\n# oh-my-dockers: end\n# oh-my-dockers: b\n127.0.0.1 b.local\n# oh-my-dockers: end\n";
    let new = "127.0.0.1 localhost\n# oh-my-dockers: b\n127.0.0.1 b.local\n# oh-my-dockers: end\n# oh-my-dockers: c\n127.0.0.1 c.local\n# oh-my-dockers: end\n";
    assert_eq!(
        extract_managed_blocks(old),
        vec![
            "# oh-my-dockers: a\n127.0.0.1 a.local\n# oh-my-dockers: end".to_string(),
            "# oh-my-dockers: b\n127.0.0.1 b.local\n# oh-my-dockers: end".to_string(),
        ]
    );
    let changes = block_changes(old, new);
    assert_eq!(
        changes.removed,
        vec!["# oh-my-dockers: a\n127.0.0.1 a.local\n# oh-my-dockers: end".to_string()]
    );
    assert_eq!(
        changes.added,
        vec!["# oh-my-dockers: c\n127.0.0.1 c.local\n# oh-my-dockers: end".to_string()]
    );
    let same = block_changes(old, old);
    assert!(same.removed.is_empty() && same.added.is_empty());
    // a project whose name holds "end" opens no block
    assert!(extract_managed_blocks("# oh-my-dockers: backend\n127.0.0.1 x\n").is_empty());
}

#[test]
fn entry_holds_all_domains_on_one_line() {
    assert_eq!(
        hosts_entry("daily", &vec!["daily.local".to_string(), "api.daily.local".to_string()]),
        "# oh-my-dockers: daily\n127.0.0.1 daily.local api.daily.local\n# oh-my-dockers: end"
    );
}
