use ruvnc_viewer::bridge::{
    cancel_credentials, credential_lookup, credential_outcome, framebuffer_ready, no_credentials,
    on_bell, on_clipboard_announce, on_clipboard_data, on_connection_error, on_cursor_changed,
    on_frame_updated, on_init_done, on_show_message, poll_clipboard, poll_credential_request,
    poll_cursor_data, poll_damage_rects, poll_error, poll_init_done, post_credential_request,
    provide_credentials, set_connection_context, stored_credentials, waiting_for_user,
    CallbackState, CredentialLookup, CredentialResult, DamageRect, FramebufferInfo,
};

#[test]
fn test_damage_rect_clone() {
    let rect = DamageRect { x: 10, y: 20, w: 100, h: 200 };
    let cloned = rect.clone();
    assert_eq!(cloned.x, 10);
    assert_eq!(cloned.y, 20);
    assert_eq!(cloned.w, 100);
    assert_eq!(cloned.h, 200);
}

#[test]
fn test_damage_rect_debug() {
    let rect = DamageRect { x: 0, y: 0, w: 1920, h: 1080 };
    let dbg = format!("{:?}", rect);
    assert!(dbg.contains("1920"));
    assert!(dbg.contains("1080"));
}

#[test]
fn test_credential_result_clone() {
    let cr = CredentialResult {
        username: "user".to_string(),
        password: "pass".to_string(),
        ok: true,
    };
    let cloned = cr.clone();
    assert_eq!(cloned.username, "user");
    assert_eq!(cloned.password, "pass");
    assert!(cloned.ok);
}

#[test]
fn test_credential_result_empty() {
    let cr = CredentialResult {
        username: String::new(),
        password: String::new(),
        ok: false,
    };
    assert!(!cr.ok);
    assert!(cr.username.is_empty());
}

#[test]
fn test_framebuffer_info_clone() {
    let info = FramebufferInfo {
        width: 1920,
        height: 1080,
        stride: 1920,
        data_ptr: 0xDEADBEEF,
    };
    let cloned = info.clone();
    assert_eq!(cloned.width, 1920);
    assert_eq!(cloned.height, 1080);
    assert_eq!(cloned.data_ptr, 0xDEADBEEF);
}

#[test]
fn test_framebuffer_info_zero() {
    let info = FramebufferInfo {
        width: 0,
        height: 0,
        stride: 0,
        data_ptr: 0,
    };
    assert_eq!(info.width, 0);
    assert_eq!(info.data_ptr, 0);
}

#[test]
fn test_provide_credentials_stores_response() {
    let mut state = CallbackState::default();
    provide_credentials(&mut state, "testuser".to_string(), "testpass".to_string());
    let resp = state.credential_response.as_ref().unwrap();
    assert_eq!(resp.username, "testuser");
    assert!(resp.ok);
}

#[test]
fn test_on_connection_error_stores_message() {
    let mut state = CallbackState::default();
    on_connection_error(&mut state, "test error message");
    assert!(state.error.as_ref().unwrap().contains("test error"));
}

#[test]
fn test_on_bell_does_not_panic() {
    on_bell();
}

#[test]
fn test_on_show_message_returns_true() {
    assert!(on_show_message(0, "Title", "Text"));
}

#[test]
fn test_on_clipboard_data_stores() {
    let mut state = CallbackState::default();
    on_clipboard_data(&mut state, "hello clipboard");
    assert_eq!(state.clipboard_text.as_ref().unwrap(), "hello clipboard");
}

#[test]
fn test_on_clipboard_announce_stores() {
    let mut state = CallbackState::default();
    on_clipboard_announce(&mut state, true);
    assert_eq!(state.clipboard_available, Some(true));
}

#[test]
fn test_on_init_done_stores() {
    let mut state = CallbackState::default();
    on_init_done(&mut state, 1920, 1080);
    assert_eq!(state.init_done, Some((1920, 1080)));
}

#[test]
fn test_on_frame_updated_accumulates() {
    let mut state = CallbackState::default();
    state.damage_rects.clear();
    on_frame_updated(&mut state, &DamageRect { x: 0, y: 0, w: 100, h: 100 });
    on_frame_updated(&mut state, &DamageRect { x: 50, y: 50, w: 200, h: 200 });
    assert!(state.damage_rects.len() >= 2);
}

#[test]
fn test_on_cursor_changed_stores() {
    let mut state = CallbackState::default();
    let data = vec![255u8; 16];
    on_cursor_changed(&mut state, 2, 2, 1, 1, &data);
    let cursor = state.cursor_data.as_ref().unwrap();
    assert_eq!(cursor.width, 2);
    assert_eq!(cursor.height, 2);
    assert_eq!(cursor.hotspot_x, 1);
    assert_eq!(cursor.data.len(), 16);
}

#[test]
fn test_cancel_credentials_wakes_waiter() {
    let mut state = CallbackState::default();
    cancel_credentials(&mut state);
    assert!(state.credential_cancelled);
}

#[test]
fn test_provide_then_poll_clears() {
    let mut state = CallbackState::default();
    provide_credentials(&mut state, "u".to_string(), "p".to_string());
    assert!(state.credential_response.is_some());
}

#[test]
fn polls_take_what_callbacks_left() {
    let mut state = CallbackState::default();
    on_init_done(&mut state, 800, 600);
    on_frame_updated(&mut state, &DamageRect { x: 1, y: 2, w: 3, h: 4 });
    on_connection_error(&mut state, "boom");
    on_clipboard_data(&mut state, "clip");
    on_cursor_changed(&mut state, 1, 1, 0, 0, &[1, 2, 3, 4]);

    assert_eq!(poll_init_done(&mut state), Some((800, 600)));
    assert_eq!(poll_init_done(&mut state), None);
    let rects = poll_damage_rects(&mut state);
    assert_eq!(rects, vec![DamageRect { x: 1, y: 2, w: 3, h: 4 }]);
    assert!(poll_damage_rects(&mut state).is_empty());
    assert_eq!(poll_error(&mut state).unwrap(), "boom");
    assert!(poll_error(&mut state).is_none());
    assert_eq!(poll_clipboard(&mut state).unwrap(), "clip");
    assert!(poll_clipboard(&mut state).is_none());
    let (w, h, hx, hy, data) = poll_cursor_data(&mut state).unwrap();
    assert_eq!((w, h, hx, hy), (1, 1, 0, 0));
    assert_eq!(data, vec![1, 2, 3, 4]);
    assert!(poll_cursor_data(&mut state).is_none());
}

#[test]
fn credential_handshake_with_user_answer() {
    let mut state = CallbackState::default();
    assert!(matches!(credential_lookup(&state), CredentialLookup::AskUser));
    set_connection_context(&mut state, "srv", 5901, "bob");
    match credential_lookup(&state) {
        CredentialLookup::AskKeyring { host, port, username } => {
            assert_eq!(host, "srv");
            assert_eq!(port, 5901);
            assert_eq!(username, "bob");
        }
        _ => panic!("expected a keyring lookup"),
    }
    post_credential_request(&mut state, true, false);
    assert!(waiting_for_user(&state));
    let req = poll_credential_request(&mut state).unwrap();
    assert_eq!(req.host, "srv");
    assert_eq!(req.port, 5901);
    assert!(poll_credential_request(&mut state).is_none());
    provide_credentials(&mut state, "bob".to_string(), "pw".to_string());
    assert!(!waiting_for_user(&state));
    let out = credential_outcome(&state, false);
    assert!(out.ok);
    assert_eq!(out.password, "pw");
    let timed_out = credential_outcome(&state, true);
    assert!(!timed_out.ok);
    assert!(timed_out.password.is_empty());
}

#[test]
fn credential_handshake_cancelled() {
    let mut state = CallbackState::default();
    post_credential_request(&mut state, false, true);
    cancel_credentials(&mut state);
    assert!(!waiting_for_user(&state));
    let out = credential_outcome(&state, false);
    assert!(!out.ok);
    let stored = stored_credentials("u".to_string(), "p".to_string());
    assert!(stored.ok);
    assert!(!no_credentials().ok);
}

#[test]
fn framebuffer_ready_needs_size_and_pixels() {
    let mut info = FramebufferInfo { width: 10, height: 10, stride: 10, data_ptr: 1 };
    assert!(framebuffer_ready(&info));
    info.data_ptr = 0;
    assert!(!framebuffer_ready(&info));
    info.data_ptr = 1;
    info.height = 0;
    assert!(!framebuffer_ready(&info));
}

#[test]
fn announce_keeps_the_latest_clipboard_text() {
    let mut state = CallbackState::default();
    on_clipboard_data(&mut state, "old");
    on_clipboard_data(&mut state, "hello clipboard");
    on_clipboard_announce(&mut state, true);
    assert_eq!(poll_clipboard(&mut state), Some("hello clipboard".to_string()));
    assert_eq!(poll_clipboard(&mut state), None);
}

#[test]
fn provided_credentials_are_used_without_a_request() {
    let mut state = CallbackState::default();
    set_connection_context(&mut state, "", 5900, "ctx");
    provide_credentials(&mut state, "alice".to_string(), "pw".to_string());
    match credential_lookup(&state) {
        CredentialLookup::Ready(c) => {
            assert_eq!(c.username, "alice");
            assert_eq!(c.password, "pw");
            assert!(c.ok);
        }
        _ => panic!("expected the provided credentials"),
    }
    assert!(poll_credential_request(&mut state).is_none());
}
