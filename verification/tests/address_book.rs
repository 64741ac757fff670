use ruvnc_viewer::address_book::{display_number, resolve_port, AddressBook, ServerEntry, Timestamp};

fn make_entry(name: &str, host: &str, port: u16) -> ServerEntry {
    ServerEntry {
        name: name.to_string(),
        host: host.to_string(),
        port,
        ..Default::default()
    }
}

fn group_len(groups: &[(String, Vec<&ServerEntry>)], name: &str) -> Option<usize> {
    groups.iter().find(|(g, _)| g == name).map(|(_, v)| v.len())
}

#[test]
fn test_default_entry_has_uuid() {
    let e1 = ServerEntry::default();
    let e2 = ServerEntry::default();
    assert!(!e1.id.is_empty());
    assert_ne!(e1.id, e2.id, "each default entry gets a unique id");
}

#[test]
fn test_default_entry_fields() {
    let entry = ServerEntry::default();
    assert_eq!(entry.port, 5900);
    assert_eq!(entry.group, "Default");
    assert!(entry.tags.is_empty());
    assert!(entry.username.is_empty());
    assert!(entry.notes.is_empty());
    assert!(!entry.is_team);
    assert!(entry.created_at.is_some());
    assert!(entry.last_connected.is_none());
}

#[test]
fn test_display_address_default_port() {
    let entry = make_entry("s", "10.0.0.1", 5900);
    assert_eq!(entry.display_address(), "10.0.0.1");
}

#[test]
fn test_display_address_custom_port() {
    let entry = make_entry("s", "10.0.0.1", 5901);
    assert_eq!(entry.display_address(), "10.0.0.1:1");
}

#[test]
fn test_display_address_hostname() {
    let entry = make_entry("s", "myserver.local", 5900);
    assert_eq!(entry.display_address(), "myserver.local");
}

#[test]
fn test_display_address_non_vnc_port() {
    let entry = make_entry("s", "10.0.0.1", 9000);
    assert_eq!(entry.display_address(), "10.0.0.1:9000");
}

#[test]
fn test_display_address_display_99() {
    let entry = make_entry("s", "host", 5999);
    assert_eq!(entry.display_address(), "host:99");
}

#[test]
fn test_resolve_port_display_number() {
    assert_eq!(resolve_port(0), 5900);
    assert_eq!(resolve_port(1), 5901);
    assert_eq!(resolve_port(99), 5999);
}

#[test]
fn test_resolve_port_tcp_port() {
    assert_eq!(resolve_port(100), 100);
    assert_eq!(resolve_port(5901), 5901);
    assert_eq!(resolve_port(9000), 9000);
}

#[test]
fn test_display_number_vnc_range() {
    assert_eq!(display_number(5900), Some(0));
    assert_eq!(display_number(5901), Some(1));
    assert_eq!(display_number(5999), Some(99));
}

#[test]
fn test_display_number_non_vnc() {
    assert_eq!(display_number(80), None);
    assert_eq!(display_number(6000), None);
    assert_eq!(display_number(9000), None);
}

#[test]
fn test_search_empty_query_matches_all() {
    let entry = make_entry("anything", "anywhere", 5900);
    assert!(entry.matches_search(""));
}

#[test]
fn test_search_by_name() {
    let entry = make_entry("Dev-Linux-01", "10.0.0.1", 5900);
    assert!(entry.matches_search("dev"));
    assert!(entry.matches_search("DEV"));
    assert!(entry.matches_search("linux"));
    assert!(entry.matches_search("01"));
}

#[test]
fn test_search_by_host() {
    let entry = make_entry("s", "192.168.1.50", 5900);
    assert!(entry.matches_search("192.168"));
    assert!(entry.matches_search("168.1"));
}

#[test]
fn test_search_by_group() {
    let mut entry = make_entry("s", "h", 5900);
    entry.group = "Production".to_string();
    assert!(entry.matches_search("prod"));
}

#[test]
fn test_search_by_tags() {
    let mut entry = make_entry("s", "h", 5900);
    entry.tags = vec!["ubuntu".to_string(), "headless".to_string()];
    assert!(entry.matches_search("ubuntu"));
    assert!(entry.matches_search("headless"));
    assert!(!entry.matches_search("centos"));
}

#[test]
fn test_search_by_notes() {
    let mut entry = make_entry("s", "h", 5900);
    entry.notes = "This is the staging box".to_string();
    assert!(entry.matches_search("staging"));
}

#[test]
fn test_search_no_match() {
    let entry = make_entry("Alpha", "10.0.0.1", 5900);
    assert!(!entry.matches_search("zzzzz"));
}

#[test]
fn test_default_book_has_default_group() {
    let book = AddressBook::default();
    assert!(book.servers.is_empty());
    assert_eq!(book.groups, vec!["Default".to_string()]);
}

#[test]
fn test_add_creates_new_group() {
    let mut book = AddressBook::default();
    let mut entry = make_entry("s", "h", 5900);
    entry.group = "NewGroup".to_string();
    book.add(entry);
    assert!(book.groups.contains(&"NewGroup".to_string()));
}

#[test]
fn test_add_does_not_duplicate_group() {
    let mut book = AddressBook::default();
    let e1 = make_entry("s1", "h1", 5900);
    let e2 = make_entry("s2", "h2", 5900);
    book.add(e1);
    book.add(e2);
    let count = book
        .groups
        .iter()
        .filter(|g| g.as_str() == "Default")
        .count();
    assert_eq!(count, 1);
}

#[test]
fn test_find_existing() {
    let mut book = AddressBook::default();
    let entry = make_entry("s", "h", 5900);
    let id = entry.id.clone();
    book.add(entry);
    assert!(book.find(&id).is_some());
}

#[test]
fn test_find_missing() {
    let book = AddressBook::default();
    assert!(book.find("nonexistent").is_none());
}

#[test]
fn test_remove() {
    let mut book = AddressBook::default();
    let entry = make_entry("s", "h", 5900);
    let id = entry.id.clone();
    book.add(entry);
    assert_eq!(book.servers.len(), 1);
    book.remove(&id);
    assert_eq!(book.servers.len(), 0);
}

#[test]
fn test_remove_nonexistent_is_noop() {
    let mut book = AddressBook::default();
    book.add(make_entry("s", "h", 5900));
    book.remove("does-not-exist");
    assert_eq!(book.servers.len(), 1);
}

#[test]
fn test_update_existing() {
    let mut book = AddressBook::default();
    let entry = make_entry("old_name", "h", 5900);
    let id = entry.id.clone();
    book.add(entry);

    let mut updated = book.find(&id).unwrap().duplicate();
    updated.name = "new_name".to_string();
    book.update(updated);

    assert_eq!(book.find(&id).unwrap().name, "new_name");
}

#[test]
fn test_update_nonexistent_is_noop() {
    let mut book = AddressBook::default();
    let ghost = ServerEntry {
        id: "ghost".to_string(),
        name: "ghost".to_string(),
        ..Default::default()
    };
    book.update(ghost);
    assert!(book.servers.is_empty());
}

#[test]
fn test_mark_connected() {
    let mut book = AddressBook::default();
    let entry = make_entry("s", "h", 5900);
    let id = entry.id.clone();
    book.add(entry);
    assert!(book.find(&id).unwrap().last_connected.is_none());
    book.mark_connected(&id);
    assert!(book.find(&id).unwrap().last_connected.is_some());
}

#[test]
fn address_book_test_servers_by_group() {
    let mut book = AddressBook::default();
    let mut e1 = make_entry("s1", "h1", 5900);
    e1.group = "A".to_string();
    let mut e2 = make_entry("s2", "h2", 5900);
    e2.group = "B".to_string();
    let mut e3 = make_entry("s3", "h3", 5900);
    e3.group = "A".to_string();
    book.add(e1);
    book.add(e2);
    book.add(e3);

    let by_group = book.servers_by_group();
    assert_eq!(group_len(&by_group, "A").unwrap(), 2);
    assert_eq!(group_len(&by_group, "B").unwrap(), 1);
}

#[test]
fn test_merge_team_servers_adds_new() {
    let mut book = AddressBook::default();
    book.add(make_entry("local", "localhost", 5900));

    let team = vec![ServerEntry {
        id: "team-1".to_string(),
        name: "Team".to_string(),
        host: "10.0.0.5".to_string(),
        is_team: true,
        ..Default::default()
    }];

    book.merge_team_servers(team);
    assert_eq!(book.servers.len(), 2);
    assert!(book.servers.iter().any(|s| s.id == "team-1" && s.is_team));
}

#[test]
fn test_merge_team_servers_replaces_old_team() {
    let mut book = AddressBook::default();
    book.add(make_entry("local", "localhost", 5900));

    let team_v1 = vec![ServerEntry {
        id: "team-1".to_string(),
        name: "Old Team".to_string(),
        host: "10.0.0.1".to_string(),
        is_team: true,
        ..Default::default()
    }];
    book.merge_team_servers(team_v1);
    assert_eq!(book.servers.len(), 2);

    let team_v2 = vec![ServerEntry {
        id: "team-2".to_string(),
        name: "New Team".to_string(),
        host: "10.0.0.2".to_string(),
        is_team: true,
        ..Default::default()
    }];
    book.merge_team_servers(team_v2);

    assert_eq!(book.servers.len(), 2);
    assert!(!book.servers.iter().any(|s| s.id == "team-1"));
    assert!(book.servers.iter().any(|s| s.id == "team-2"));
}

#[test]
fn test_merge_team_does_not_overwrite_local_with_same_id() {
    let mut book = AddressBook::default();
    let local = ServerEntry {
        id: "shared-id".to_string(),
        name: "My Local".to_string(),
        host: "localhost".to_string(),
        is_team: false,
        ..Default::default()
    };
    book.add(local);

    let team = vec![ServerEntry {
        id: "shared-id".to_string(),
        name: "Team Override".to_string(),
        host: "10.0.0.1".to_string(),
        is_team: true,
        ..Default::default()
    }];
    book.merge_team_servers(team);

    assert_eq!(book.servers.len(), 1);
    assert_eq!(book.find("shared-id").unwrap().name, "My Local");
}

#[test]
fn merge_marks_team_entries_and_keeps_local_order() {
    let mut book = AddressBook::default();
    book.add(make_entry("a", "h1", 5900));
    book.add(make_entry("b", "h2", 5900));
    let team = vec![ServerEntry {
        id: "t".to_string(),
        name: "t".to_string(),
        is_team: false,
        ..Default::default()
    }];
    book.merge_team_servers(team);
    assert_eq!(book.servers.len(), 3);
    assert_eq!(book.servers[0].name, "a");
    assert_eq!(book.servers[1].name, "b");
    assert!(book.servers[2].is_team);
    let again = vec![ServerEntry {
        id: "t".to_string(),
        name: "t".to_string(),
        ..Default::default()
    }];
    book.merge_team_servers(again);
    assert_eq!(book.servers.len(), 3);
}

#[test]
fn servers_by_group_keeps_first_appearance_order() {
    let mut book = AddressBook::default();
    let mut e1 = make_entry("s1", "h1", 5900);
    e1.group = "B".to_string();
    let mut e2 = make_entry("s2", "h2", 5900);
    e2.group = "A".to_string();
    book.add(e1);
    book.add(e2);
    let by_group = book.servers_by_group();
    assert_eq!(by_group.len(), 2);
    assert_eq!(by_group[0].0, "B");
    assert_eq!(by_group[1].0, "A");
    assert_eq!(by_group[1].1[0].name, "s2");
}

#[test]
fn find_by_host_port_finds_first_match() {
    let mut book = AddressBook::default();
    book.add(make_entry("first", "h", 5901));
    book.add(make_entry("second", "h", 5901));
    assert_eq!(book.find_by_host_port("h", 5901).unwrap().name, "first");
    assert!(book.find_by_host_port("h", 5902).is_none());
}

#[test]
fn search_is_case_insensitive_on_query_and_fields() {
    let entry = make_entry("ÄBC", "Host", 5900);
    assert!(entry.matches_search("äbc"));
    assert!(entry.matches_search("HOST"));
}

#[test]
fn mark_connected_at_records_the_given_time() {
    let mut book = AddressBook::default();
    let entry = make_entry("s", "h", 5900);
    let id = entry.id.clone();
    book.add(entry);
    let when = Timestamp { secs: 1_700_000_000, nanos: 5 };
    book.mark_connected_at(&id, when);
    assert_eq!(book.find(&id).unwrap().last_connected, Some(when));
    book.mark_connected_at("missing", when);
    assert_eq!(book.servers.len(), 1);
}

#[test]
fn default_ids_are_hyphenated_uuids() {
    let e = ServerEntry::default();
    assert_eq!(e.id.len(), 36);
    assert_eq!(e.id.chars().filter(|c| *c == '-').count(), 4);
}
