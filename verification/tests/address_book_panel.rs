use ruvnc_viewer::address_book::{AddressBook, ServerEntry};
use ruvnc_viewer::address_book_panel::{parse_u16, text_le_exec, Action, AddressBookPanel};

fn entry(name: &str, group: &str) -> ServerEntry {
    ServerEntry {
        name: name.to_string(),
        host: format!("{}.local", name),
        group: group.to_string(),
        ..Default::default()
    }
}

#[test]
fn test_parse_host_port_bare_host() {
    let (host, port) = AddressBookPanel::parse_host_port("myserver");
    assert_eq!(host, "myserver");
    assert_eq!(port, 5900);
}

#[test]
fn test_parse_host_port_display_number() {
    let (host, port) = AddressBookPanel::parse_host_port("myserver:1");
    assert_eq!(host, "myserver");
    assert_eq!(port, 5901);
}

#[test]
fn test_parse_host_port_display_zero() {
    let (host, port) = AddressBookPanel::parse_host_port("myserver:0");
    assert_eq!(host, "myserver");
    assert_eq!(port, 5900);
}

#[test]
fn test_parse_host_port_explicit_port() {
    let (host, port) = AddressBookPanel::parse_host_port("myserver:5901");
    assert_eq!(host, "myserver");
    assert_eq!(port, 5901);
}

#[test]
fn test_parse_host_port_high_port() {
    let (host, port) = AddressBookPanel::parse_host_port("10.0.0.1:9000");
    assert_eq!(host, "10.0.0.1");
    assert_eq!(port, 9000);
}

#[test]
fn test_parse_host_port_whitespace() {
    let (host, port) = AddressBookPanel::parse_host_port("  myserver:2  ");
    assert_eq!(host, "myserver");
    assert_eq!(port, 5902);
}

#[test]
fn test_parse_host_port_display_99() {
    let (host, port) = AddressBookPanel::parse_host_port("host:99");
    assert_eq!(host, "host");
    assert_eq!(port, 5999);
}

#[test]
fn test_parse_host_port_port_100_is_literal() {
    let (host, port) = AddressBookPanel::parse_host_port("host:100");
    assert_eq!(host, "host");
    assert_eq!(port, 100);
}

#[test]
fn parse_host_port_keeps_text_when_port_does_not_parse() {
    assert_eq!(AddressBookPanel::parse_host_port("host:abc"), ("host:abc".to_string(), 5900));
    assert_eq!(AddressBookPanel::parse_host_port("host:70000"), ("host:70000".to_string(), 5900));
    assert_eq!(AddressBookPanel::parse_host_port("host:"), ("host:".to_string(), 5900));
    assert_eq!(AddressBookPanel::parse_host_port("a:b:+7"), ("a:b".to_string(), 5907));
}

#[test]
fn parse_u16_follows_str_parse() {
    let digits = |s: &str| s.chars().collect::<Vec<char>>();
    assert_eq!(parse_u16(&digits("65535")), Some(65535));
    assert_eq!(parse_u16(&digits("65536")), None);
    assert_eq!(parse_u16(&digits("+12")), Some(12));
    assert_eq!(parse_u16(&digits("+")), None);
    assert_eq!(parse_u16(&digits("")), None);
    assert_eq!(parse_u16(&digits("-1")), None);
    assert_eq!(parse_u16(&digits("007")), Some(7));
}

#[test]
fn quick_connect_submission() {
    let mut panel = AddressBookPanel::new();
    panel.quick_connect_input = "   ".to_string();
    panel.submit_quick_connect();
    assert!(panel.take_action().is_none());
    assert_eq!(panel.quick_connect_input, "   ");
    panel.quick_connect_input = " srv:3 ".to_string();
    panel.submit_quick_connect();
    assert!(panel.quick_connect_input.is_empty());
    match panel.take_action() {
        Some(Action::QuickConnect(h, p)) => {
            assert_eq!(h, "srv");
            assert_eq!(p, 5903);
        }
        _ => panic!("expected a quick connection"),
    }
    assert!(panel.take_action().is_none());
}

#[test]
fn visible_servers_are_filtered_and_sorted_by_group_then_name() {
    let mut book = AddressBook::default();
    book.add(entry("zeta", "B"));
    book.add(entry("alpha", "B"));
    book.add(entry("mid", "A"));
    book.add(entry("Beta", "B"));
    let mut panel = AddressBookPanel::new();
    let names: Vec<&str> = panel.visible_servers(&book).iter().map(|e| e.name.as_str()).collect();
    assert_eq!(names, vec!["mid", "Beta", "alpha", "zeta"]);

    panel.selected_group = Some("B".to_string());
    let names: Vec<&str> = panel.visible_servers(&book).iter().map(|e| e.name.as_str()).collect();
    assert_eq!(names, vec!["Beta", "alpha", "zeta"]);

    panel.search_query = "ALP".to_string();
    let names: Vec<&str> = panel.visible_servers(&book).iter().map(|e| e.name.as_str()).collect();
    assert_eq!(names, vec!["alpha"]);
}

#[test]
fn equal_keys_keep_book_order() {
    let mut book = AddressBook::default();
    let mut first = entry("same", "G");
    first.host = "one".to_string();
    let mut second = entry("same", "G");
    second.host = "two".to_string();
    book.add(first);
    book.add(second);
    let panel = AddressBookPanel::new();
    let hosts: Vec<&str> = panel.visible_servers(&book).iter().map(|e| e.host.as_str()).collect();
    assert_eq!(hosts, vec!["one", "two"]);
}

#[test]
fn text_order_is_by_code_point() {
    assert!(text_le_exec("", "a"));
    assert!(text_le_exec("a", "a"));
    assert!(text_le_exec("ab", "abc"));
    assert!(!text_le_exec("abc", "ab"));
    assert!(text_le_exec("B", "a"));
    assert!(!text_le_exec("b", "B"));
}

#[test]
fn row_and_selection_actions() {
    let mut book = AddressBook::default();
    let e = entry("box", "Default");
    let id = e.id.clone();
    book.add(e);
    let mut panel = AddressBookPanel::new();

    panel.connect_selected();
    assert!(panel.take_action().is_none());
    panel.select_server(&id);
    panel.connect_selected();
    assert!(matches!(panel.take_action(), Some(Action::Connect(ref s)) if *s == id));
    panel.edit_selected();
    assert!(matches!(panel.take_action(), Some(Action::Edit(ref s)) if *s == id));
    panel.request_add();
    assert!(matches!(panel.take_action(), Some(Action::Add)));

    panel.delete_selected();
    assert!(panel.take_action().is_none());
    assert_eq!(panel.delete_prompt(&book).unwrap(), "Delete server 'box'?");
    panel.cancel_delete();
    assert!(panel.delete_prompt(&book).is_none());
    panel.request_delete(&id);
    panel.confirm_pending_delete();
    assert!(matches!(panel.take_action(), Some(Action::Delete(ref s)) if *s == id));
    assert!(panel.confirm_delete.is_none());

    panel.request_delete("gone");
    assert_eq!(panel.delete_prompt(&book).unwrap(), "Delete server ''?");
    panel.request_connect("x");
    assert!(matches!(panel.take_action(), Some(Action::Connect(ref s)) if s == "x"));
    panel.request_edit("y");
    assert!(matches!(panel.take_action(), Some(Action::Edit(ref s)) if s == "y"));
}

#[test]
fn displayed_addresses_read_back_in_quick_connect() {
    for (host, port) in [("srv", 5900u16), ("srv", 5901), ("10.0.0.1", 9000), ("h", 100), ("h", 5999)] {
        let e = ServerEntry { host: host.to_string(), port, ..Default::default() };
        assert_eq!(AddressBookPanel::parse_host_port(&e.display_address()), (host.to_string(), port));
    }
}
