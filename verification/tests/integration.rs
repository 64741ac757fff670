use ruvnc_viewer::address_book::{AddressBook, ServerEntry};
use ruvnc_viewer::connection::{ConnectionManager, ConnectionState};
use ruvnc_viewer::framebuffer::FrameBuffer;

#[test]
fn test_full_address_book_crud() {
    let mut book = AddressBook::default();

    let entry = ServerEntry {
        name: "Test Server".to_string(),
        host: "192.168.1.100".to_string(),
        port: 5900,
        group: "Testing".to_string(),
        tags: vec!["linux".to_string(), "dev".to_string()],
        ..Default::default()
    };
    let id = entry.id.clone();

    book.add(entry);
    assert_eq!(book.servers.len(), 1);
    assert!(book.groups.contains(&"Testing".to_string()));

    let found = book.find(&id).unwrap();
    assert_eq!(found.name, "Test Server");

    let mut updated = found.duplicate();
    updated.name = "Updated Server".to_string();
    book.update(updated);
    assert_eq!(book.find(&id).unwrap().name, "Updated Server");

    book.mark_connected(&id);
    assert!(book.find(&id).unwrap().last_connected.is_some());

    book.remove(&id);
    assert_eq!(book.servers.len(), 0);
}

#[test]
fn test_search_across_all_fields() {
    let entry = ServerEntry {
        name: "Production DB".to_string(),
        host: "db.example.com".to_string(),
        port: 5900,
        group: "Infrastructure".to_string(),
        tags: vec!["postgres".to_string(), "primary".to_string()],
        notes: "Main database server, handle with care".to_string(),
        ..Default::default()
    };

    assert!(entry.matches_search("production"));
    assert!(entry.matches_search("example.com"));
    assert!(entry.matches_search("infrastructure"));
    assert!(entry.matches_search("postgres"));
    assert!(entry.matches_search("handle with care"));
    assert!(!entry.matches_search("nonexistent"));
}

#[test]
fn test_team_merge_full_lifecycle() {
    let mut book = AddressBook::default();

    let local = ServerEntry {
        id: "local-1".to_string(),
        name: "My Local Server".to_string(),
        host: "localhost".to_string(),
        is_team: false,
        ..Default::default()
    };
    book.add(local);

    let team_v1 = vec![
        ServerEntry {
            id: "team-1".to_string(),
            name: "Team Prod".to_string(),
            host: "10.0.0.1".to_string(),
            is_team: true,
            ..Default::default()
        },
        ServerEntry {
            id: "team-2".to_string(),
            name: "Team Staging".to_string(),
            host: "10.0.0.2".to_string(),
            is_team: true,
            ..Default::default()
        },
    ];
    book.merge_team_servers(team_v1);
    assert_eq!(book.servers.len(), 3);

    let team_v2 = vec![ServerEntry {
        id: "team-3".to_string(),
        name: "Team New".to_string(),
        host: "10.0.0.3".to_string(),
        is_team: true,
        ..Default::default()
    }];
    book.merge_team_servers(team_v2);

    assert_eq!(book.servers.len(), 2);
    assert!(book.servers.iter().any(|s| s.id == "local-1" && !s.is_team));
    assert!(book.servers.iter().any(|s| s.id == "team-3" && s.is_team));
    assert!(!book.servers.iter().any(|s| s.id == "team-1"));
    assert!(!book.servers.iter().any(|s| s.id == "team-2"));
}

#[test]
fn test_connection_manager_state_transitions() {
    let mgr = ConnectionManager::new();
    assert_eq!(mgr.state(), ConnectionState::Disconnected);
    assert!(!mgr.is_connected());
    assert!(!mgr.has_error());
}

#[test]
fn test_connection_manager_input_queue_ordering() {
    let mut mgr = ConnectionManager::new();
    mgr.send_key_press(0x41, 0x41);
    mgr.send_pointer(100, 200, 1);
    mgr.send_clipboard("test");
    mgr.send_key_release(0x41);
    mgr.set_encoding(7);
    mgr.set_quality(8);
    mgr.set_compress(2);

    assert_eq!(mgr.inner.input_queue.len(), 7);
}

#[test]
fn test_display_address_variants() {
    let default_port = ServerEntry {
        host: "myhost".to_string(),
        port: 5900,
        ..Default::default()
    };
    assert_eq!(default_port.display_address(), "myhost");

    let custom_port = ServerEntry {
        host: "myhost".to_string(),
        port: 5901,
        ..Default::default()
    };
    assert_eq!(custom_port.display_address(), "myhost:1");

    let ip_addr = ServerEntry {
        host: "192.168.1.1".to_string(),
        port: 5900,
        ..Default::default()
    };
    assert_eq!(ip_addr.display_address(), "192.168.1.1");
}

#[test]
fn test_framebuffer_pixel_operations() {
    let mut fb = FrameBuffer::new(100, 100);
    assert_eq!(fb.pixel_at(0, 0), [0, 0, 0, 0]);

    fb.set_pixel(50, 50, [255, 128, 64, 255]);
    assert_eq!(fb.pixel_at(50, 50), [255, 128, 64, 255]);

    assert_eq!(fb.pixel_at(200, 200), [0, 0, 0, 255]);
}

#[test]
fn main_test_servers_by_group() {
    let mut book = AddressBook::default();
    for i in 0..5 {
        let mut entry = ServerEntry {
            name: format!("s{}", i),
            host: format!("h{}", i),
            ..Default::default()
        };
        entry.group = if i < 3 {
            "A".to_string()
        } else {
            "B".to_string()
        };
        book.add(entry);
    }

    let by_group = book.servers_by_group();
    let a = by_group.iter().find(|(g, _)| g == "A").unwrap();
    let b = by_group.iter().find(|(g, _)| g == "B").unwrap();
    assert_eq!(a.1.len(), 3);
    assert_eq!(b.1.len(), 2);
}
