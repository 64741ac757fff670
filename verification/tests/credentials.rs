use ruvnc_viewer::credentials::{entry_key, SERVICE_NAME};

#[test]
fn test_entry_key_no_user() {
    assert_eq!(entry_key("10.0.0.1", 5900, ""), "10.0.0.1:5900");
}

#[test]
fn test_entry_key_with_user() {
    assert_eq!(entry_key("10.0.0.1", 5901, "admin"), "admin@10.0.0.1:5901");
}

#[test]
fn test_entry_key_special_chars() {
    assert_eq!(
        entry_key("my-host.example.com", 5900, "user@domain"),
        "user@domain@my-host.example.com:5900"
    );
}

#[test]
fn test_entry_key_high_port() {
    assert_eq!(entry_key("h", 65535, ""), "h:65535");
}

#[test]
fn test_entry_key_port_1() {
    assert_eq!(entry_key("h", 1, "u"), "u@h:1");
}

#[test]
fn test_service_name_constant() {
    assert_eq!(SERVICE_NAME, "ruvnc-viewer");
}
