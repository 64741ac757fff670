use ruvnc_viewer::address_book::ServerEntry;
use ruvnc_viewer::connection_dialog::ConnectionDialog;
use ruvnc_viewer::password_dialog::{PasswordDialog, PasswordResult};
use ruvnc_viewer::tunnel::SshTunnel;

#[test]
fn test_password_dialog_new() {
    let d = PasswordDialog::new("host".into(), 5900, "user".into(), false);
    assert_eq!(d.host, "host");
    assert_eq!(d.port, 5900);
    assert_eq!(d.username, "user");
    assert!(d.password.is_empty());
    assert!(d.save_password);
    assert!(!d.need_username);
    assert!(!d.is_cancelled());
    assert!(d.result.is_none());
}

#[test]
fn test_password_dialog_need_username() {
    let d = PasswordDialog::new("host".into(), 5900, "user".into(), true);
    assert!(d.need_username);
}

#[test]
fn test_password_dialog_cancel() {
    let mut d = PasswordDialog::new("h".into(), 1, "u".into(), false);
    d.cancelled = true;
    assert!(d.is_cancelled());
}

#[test]
fn test_password_result_fields() {
    let r = PasswordResult {
        username: "admin".into(),
        password: "secret".into(),
        host: "srv".into(),
        port: 5901,
        save: true,
    };
    assert_eq!(r.username, "admin");
    assert_eq!(r.password, "secret");
    assert!(r.save);
}

#[test]
fn password_dialog_confirms_only_with_a_password() {
    let mut d = PasswordDialog::new("srv".into(), 5901, "bob".into(), false);
    assert!(!d.can_connect());
    d.confirm();
    assert!(d.take_result().is_none());
    d.password = "pw".to_string();
    d.save_password = false;
    assert!(d.can_connect());
    d.confirm();
    let r = d.take_result().unwrap();
    assert_eq!((r.username.as_str(), r.password.as_str(), r.host.as_str(), r.port, r.save), ("bob", "pw", "srv", 5901, false));
    assert!(d.take_result().is_none());
    d.cancel();
    assert!(d.is_cancelled());
    assert_eq!(d.title(), "Password for srv:5901");
}

#[test]
fn test_ssh_tunnel_not_available_yet() {
    assert!(!SshTunnel::is_available());
}

#[test]
fn connection_dialog_for_a_new_entry() {
    let d = ConnectionDialog::new(None, "alice".to_string());
    assert!(!d.is_edit);
    assert_eq!(d.entry.username, "alice");
    assert_eq!(d.entry.port, 5900);
    assert!(d.tags_text.is_empty());
    assert!(!d.can_save());
    assert!(!d.wants_connect());
    assert!(!d.is_cancelled());
    assert_eq!(d.title(), "New Server");
}

#[test]
fn connection_dialog_saves_resolved_port_and_parsed_tags() {
    let existing = ServerEntry {
        name: "Box".to_string(),
        host: "box.local".to_string(),
        port: 2,
        username: "root".to_string(),
        tags: vec!["a".to_string(), "b c".to_string()],
        ..Default::default()
    };
    let mut d = ConnectionDialog::new(Some(existing), "ignored".to_string());
    assert!(d.is_edit);
    assert_eq!(d.title(), "Edit Server");
    assert_eq!(d.tags_text, "a, b c");
    assert_eq!(d.entry.username, "root");
    d.tags_text = " x ,, y ,".to_string();
    d.password_input = "secret".to_string();
    let store = d.save(true).unwrap();
    assert_eq!(store.host, "box.local");
    assert_eq!(store.port, 5902);
    assert_eq!(store.username, "root");
    assert_eq!(store.password, "secret");
    assert!(d.wants_connect());
    let saved = d.take_result().unwrap();
    assert_eq!(saved.port, 5902);
    assert_eq!(saved.tags, vec!["x".to_string(), "y".to_string()]);
    assert!(d.take_result().is_none());
}

#[test]
fn connection_dialog_without_name_does_not_save() {
    let mut d = ConnectionDialog::new(None, String::new());
    d.entry.host = "h".to_string();
    assert!(d.save(false).is_none());
    assert!(d.take_result().is_none());
    d.entry.name = "n".to_string();
    d.save_password = false;
    d.password_input = "pw".to_string();
    assert!(d.save(false).is_none());
    assert!(d.take_result().is_some());
    assert!(!d.wants_connect());
    d.cancel();
    assert!(d.is_cancelled());
}
