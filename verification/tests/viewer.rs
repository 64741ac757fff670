use ruvnc_viewer::password_dialog::PasswordDialog;
use ruvnc_viewer::viewer::{password_outcome, session_closes};
use ruvnc_viewer::address_book::{AddressBook, ServerEntry};
use ruvnc_viewer::bridge::DamageRect;
use ruvnc_viewer::connection::{ConnectionManager, InputCommand};
use ruvnc_viewer::session_view::{KeyEvent, PointerEvent, SessionView};
use ruvnc_viewer::viewer::{
    apply_damage, connect_to_entry, credential_session, find_open_session, forward_session_input,
    quick_connect, quick_connect_name, save_dialog_entry, server_count_label,
    session_status_label, SessionSlot,
};

fn slot(id: &str, host: &str, port: u16, closed: bool) -> SessionSlot {
    SessionSlot { id: id.to_string(), host: host.to_string(), port, closed }
}

#[test]
fn quick_connect_names() {
    assert_eq!(quick_connect_name("srv", 5900), "srv");
    assert_eq!(quick_connect_name("srv", 5901), "srv:5901");
}

#[test]
fn quick_connect_reuses_an_entry_with_the_same_address() {
    let mut book = AddressBook::default();
    book.add(ServerEntry {
        name: "Known".to_string(),
        host: "srv".to_string(),
        port: 5901,
        username: "bob".to_string(),
        ..Default::default()
    });
    let t = quick_connect(&mut book, "srv", 5901, "alice");
    assert_eq!(t.name, "Known");
    assert_eq!(t.username, "bob");
    assert_eq!(book.servers.len(), 1);
    assert!(book.servers[0].last_connected.is_some());
}

#[test]
fn quick_connect_adds_a_new_entry() {
    let mut book = AddressBook::default();
    let t = quick_connect(&mut book, "new", 5905, "alice");
    assert_eq!(t.name, "new:5905");
    assert_eq!(t.username, "alice");
    assert_eq!(book.servers.len(), 1);
    let e = book.find(&t.id).unwrap();
    assert_eq!(e.host, "new");
    assert!(e.last_connected.is_some());
}

#[test]
fn connect_to_entry_only_for_known_ids() {
    let mut book = AddressBook::default();
    assert!(connect_to_entry(&mut book, "nope").is_none());
    let e = ServerEntry { name: "n".to_string(), host: "h".to_string(), ..Default::default() };
    let id = e.id.clone();
    book.add(e);
    let t = connect_to_entry(&mut book, &id).unwrap();
    assert_eq!(t.host, "h");
    assert!(book.find(&id).unwrap().last_connected.is_some());
}

#[test]
fn saving_a_dialog_updates_adds_or_merges_by_address() {
    let mut book = AddressBook::default();
    let e = ServerEntry { name: "a".to_string(), host: "h".to_string(), port: 5901, ..Default::default() };
    let id = e.id.clone();
    let saved = save_dialog_entry(&mut book, e);
    assert_eq!(saved, id);
    assert_eq!(book.servers.len(), 1);

    let mut renamed = book.find(&id).unwrap().duplicate();
    renamed.name = "b".to_string();
    assert_eq!(save_dialog_entry(&mut book, renamed), id);
    assert_eq!(book.servers.len(), 1);
    assert_eq!(book.servers[0].name, "b");

    let same_address = ServerEntry { name: "c".to_string(), host: "h".to_string(), port: 5901, ..Default::default() };
    assert_eq!(save_dialog_entry(&mut book, same_address), id);
    assert_eq!(book.servers.len(), 1);
    assert_eq!(book.servers[0].name, "c");

    let other = ServerEntry { name: "d".to_string(), host: "h".to_string(), port: 5902, ..Default::default() };
    let other_id = other.id.clone();
    assert_eq!(save_dialog_entry(&mut book, other), other_id);
    assert_eq!(book.servers.len(), 2);
}

#[test]
fn session_routing() {
    let sessions = vec![slot("a", "h", 1, true), slot("a", "h", 1, false), slot("b", "g", 2, false)];
    assert_eq!(find_open_session(&sessions, "a"), Some(1));
    assert_eq!(find_open_session(&sessions, "c"), None);
    assert_eq!(credential_session(&sessions, "g", 2), Some(2));
    assert_eq!(credential_session(&sessions, "h", 1), Some(1));
    assert_eq!(credential_session(&sessions, "x", 9), Some(2));
    assert_eq!(credential_session(&Vec::new(), "x", 9), None);
}

#[test]
fn forwarding_input_keeps_order() {
    let mut view = SessionView::new();
    let mut conn = ConnectionManager::new();
    view.pending_keys.push(KeyEvent { key_code: 1, key_sym: 2, pressed: true });
    view.pending_keys.push(KeyEvent { key_code: 1, key_sym: 2, pressed: false });
    view.pending_pointer = Some(PointerEvent { x: 3, y: 4, button_mask: 1 });
    view.pending_clipboard = Some("c".to_string());
    forward_session_input(&mut view, &mut conn);
    let q = &conn.inner.input_queue;
    assert_eq!(q.len(), 4);
    assert!(matches!(q[0], InputCommand::KeyPress(1, 2)));
    assert!(matches!(q[1], InputCommand::KeyRelease(1)));
    assert!(matches!(q[2], InputCommand::Pointer(3, 4, 1)));
    assert!(matches!(q[3], InputCommand::Clipboard(ref t) if t == "c"));
    assert!(view.pending_keys.is_empty());
    assert!(view.pending_pointer.is_none());
    assert!(view.pending_clipboard.is_none());
}

#[test]
fn damage_shows_the_copy_and_counts_frames() {
    let mut view = SessionView::new();
    let rects = vec![DamageRect { x: 0, y: 0, w: 1, h: 1 }, DamageRect { x: 1, y: 1, w: 1, h: 1 }];
    apply_damage(&mut view, 0, 0, 0, Vec::new(), &rects);
    assert_eq!(view.frame_count(), 0);
    assert_eq!(view.framebuffer_size(), (0, 0));
    apply_damage(&mut view, 2, 2, 2, vec![0; 16], &rects);
    assert_eq!(view.frame_count(), 2);
    assert_eq!(view.framebuffer_size(), (2, 2));
}

#[test]
fn status_bar_labels() {
    assert_eq!(server_count_label(0), "0 servers");
    assert_eq!(server_count_label(1), "1 server");
    assert_eq!(server_count_label(12), "12 servers");
    assert_eq!(session_status_label(0), "Ready");
    assert_eq!(session_status_label(1), "1 active session");
    assert_eq!(session_status_label(3), "3 active sessions");
}

#[test]
fn sessions_close_on_error_or_when_the_user_closes() {
    let mut conn = ConnectionManager::new();
    assert!(!session_closes(&mut conn, false));
    assert!(!conn.inner.should_disconnect);
    assert!(session_closes(&mut conn, true));
    assert!(conn.inner.should_disconnect);
    let mut failed = ConnectionManager::new();
    failed.connect_finished(false, "h", 1);
    assert!(session_closes(&mut failed, false));
    assert!(!failed.inner.should_disconnect);
}

#[test]
fn password_prompt_outcomes() {
    let mut d = PasswordDialog::new("h".into(), 1, "u".into(), false);
    let o = password_outcome(&mut d);
    assert!(o.provide.is_none() && !o.cancel && !o.close);
    d.password = "pw".to_string();
    d.confirm();
    let o = password_outcome(&mut d);
    assert_eq!(o.provide.unwrap().password, "pw");
    assert!(o.close && !o.cancel);
    d.cancel();
    let o = password_outcome(&mut d);
    assert!(o.provide.is_none() && o.cancel && o.close);
}

#[test]
fn closing_a_failed_session_still_requests_the_stop() {
    let mut failed = ConnectionManager::new();
    failed.begin_connect();
    failed.connect_finished(false, "h", 1);
    assert!(session_closes(&mut failed, true));
    assert!(failed.inner.should_disconnect);
}
