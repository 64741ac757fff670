use ruvnc_viewer::framebuffer::FrameBuffer;
use ruvnc_viewer::session_view::{
    egui_key_to_keysym, pointer_buttons, Key, KeyEvent, PointerEvent, Scroll, SessionView,
};

#[test]
fn test_session_view_init() {
    let sv = SessionView::new();
    assert_eq!(sv.framebuffer_size(), (0, 0));
    assert_eq!(sv.frame_count(), 0);
    assert_eq!(sv.mouse_x, 0);
    assert_eq!(sv.mouse_y, 0);
    assert_eq!(sv.button_mask, 0);
}

#[test]
fn session_view_test_set_framebuffer() {
    let mut sv = SessionView::new();
    sv.set_framebuffer(FrameBuffer::new(1920, 1080));
    assert_eq!(sv.framebuffer_size(), (1920, 1080));
}

#[test]
fn test_update_region_increments_frame_count() {
    let mut sv = SessionView::new();
    assert_eq!(sv.frame_count(), 0);
    sv.update_region(0, 0, 100, 100);
    assert_eq!(sv.frame_count(), 1);
    sv.update_region(0, 0, 50, 50);
    assert_eq!(sv.frame_count(), 2);
}

#[test]
fn test_take_pending_keys_empty() {
    let mut sv = SessionView::new();
    assert!(sv.take_pending_keys().is_empty());
}

#[test]
fn test_take_pending_keys_consumes() {
    let mut sv = SessionView::new();
    sv.pending_keys.push(KeyEvent {
        key_code: 0x41,
        key_sym: 0x41,
        pressed: true,
    });
    let keys = sv.take_pending_keys();
    assert_eq!(keys.len(), 1);
    assert!(sv.take_pending_keys().is_empty());
}

#[test]
fn test_take_pending_pointer_empty() {
    let mut sv = SessionView::new();
    assert!(sv.take_pending_pointer().is_none());
}

#[test]
fn test_take_pending_pointer_consumes() {
    let mut sv = SessionView::new();
    sv.pending_pointer = Some(PointerEvent {
        x: 100,
        y: 200,
        button_mask: 1,
    });
    let ptr = sv.take_pending_pointer().unwrap();
    assert_eq!(ptr.x, 100);
    assert_eq!(ptr.y, 200);
    assert_eq!(ptr.button_mask, 1);
    assert!(sv.take_pending_pointer().is_none());
}

#[test]
fn test_take_pending_clipboard_empty() {
    let mut sv = SessionView::new();
    assert!(sv.take_pending_clipboard().is_none());
}

#[test]
fn test_take_pending_clipboard_consumes() {
    let mut sv = SessionView::new();
    sv.pending_clipboard = Some("pasted text".to_string());
    let text = sv.take_pending_clipboard().unwrap();
    assert_eq!(text, "pasted text");
    assert!(sv.take_pending_clipboard().is_none());
}

#[test]
fn test_keysym_escape() {
    assert_eq!(egui_key_to_keysym(&Key::Escape), Some(0xff1b));
}

#[test]
fn test_keysym_tab() {
    assert_eq!(egui_key_to_keysym(&Key::Tab), Some(0xff09));
}

#[test]
fn test_keysym_backspace() {
    assert_eq!(egui_key_to_keysym(&Key::Backspace), Some(0xff08));
}

#[test]
fn test_keysym_enter() {
    assert_eq!(egui_key_to_keysym(&Key::Enter), Some(0xff0d));
}

#[test]
fn test_keysym_space() {
    assert_eq!(egui_key_to_keysym(&Key::Space), Some(0x0020));
}

#[test]
fn test_keysym_arrows() {
    assert_eq!(egui_key_to_keysym(&Key::ArrowLeft), Some(0xff51));
    assert_eq!(egui_key_to_keysym(&Key::ArrowUp), Some(0xff52));
    assert_eq!(egui_key_to_keysym(&Key::ArrowRight), Some(0xff53));
    assert_eq!(egui_key_to_keysym(&Key::ArrowDown), Some(0xff54));
}

#[test]
fn test_keysym_function_keys() {
    assert_eq!(egui_key_to_keysym(&Key::F1), Some(0xffbe));
    assert_eq!(egui_key_to_keysym(&Key::F12), Some(0xffc9));
}

#[test]
fn test_keysym_navigation() {
    assert_eq!(egui_key_to_keysym(&Key::Home), Some(0xff50));
    assert_eq!(egui_key_to_keysym(&Key::End), Some(0xff57));
    assert_eq!(egui_key_to_keysym(&Key::PageUp), Some(0xff55));
    assert_eq!(egui_key_to_keysym(&Key::PageDown), Some(0xff56));
    assert_eq!(egui_key_to_keysym(&Key::Insert), Some(0xff63));
    assert_eq!(egui_key_to_keysym(&Key::Delete), Some(0xffff));
}

#[test]
fn test_keysym_f_keys_sequential() {
    let f_keys = [
        Key::F1, Key::F2, Key::F3, Key::F4, Key::F5, Key::F6,
        Key::F7, Key::F8, Key::F9, Key::F10, Key::F11, Key::F12,
    ];
    for (i, key) in f_keys.iter().enumerate() {
        let expected = 0xffbe + i as u32;
        assert_eq!(
            egui_key_to_keysym(key),
            Some(expected),
            "F{} should map to {:#x}",
            i + 1,
            expected
        );
    }
}

#[test]
fn test_key_event_debug() {
    let ke = KeyEvent {
        key_code: 0x41,
        key_sym: 0x41,
        pressed: true,
    };
    let dbg = format!("{:?}", ke);
    assert!(dbg.contains("key_code"));
    assert!(dbg.contains("pressed"));
}

#[test]
fn test_pointer_event_debug() {
    let pe = PointerEvent {
        x: 100,
        y: 200,
        button_mask: 3,
    };
    let dbg = format!("{:?}", pe);
    assert!(dbg.contains("100"));
    assert!(dbg.contains("200"));
}

#[test]
fn other_keys_have_no_keysym() {
    assert_eq!(egui_key_to_keysym(&Key::Other), None);
}

#[test]
fn button_mask_bits() {
    assert_eq!(pointer_buttons(false, false, false, Scroll::Still), 0);
    assert_eq!(pointer_buttons(true, false, false, Scroll::Still), 1);
    assert_eq!(pointer_buttons(false, true, false, Scroll::Still), 2);
    assert_eq!(pointer_buttons(false, false, true, Scroll::Still), 4);
    assert_eq!(pointer_buttons(false, false, false, Scroll::Up), 8);
    assert_eq!(pointer_buttons(true, true, true, Scroll::Down), 23);
}

#[test]
fn typed_text_becomes_press_release_pairs() {
    let mut sv = SessionView::new();
    sv.text_input("aé");
    let keys = sv.take_pending_keys();
    assert_eq!(keys.len(), 4);
    assert_eq!(keys[0], KeyEvent { key_code: 0x61, key_sym: 0x61, pressed: true });
    assert_eq!(keys[1], KeyEvent { key_code: 0x61, key_sym: 0x61, pressed: false });
    assert_eq!(keys[2].key_sym, 0xe9);
    assert!(!keys[3].pressed);
}

#[test]
fn key_input_and_buttons_queue_events() {
    let mut sv = SessionView::new();
    sv.key_input(Key::Enter, true);
    sv.key_input(Key::Other, true);
    assert_eq!(sv.take_pending_keys(), vec![KeyEvent { key_code: 0xff0d, key_sym: 0xff0d, pressed: true }]);
    sv.set_mouse_position(5, 6);
    sv.update_buttons(0, false);
    assert!(sv.take_pending_pointer().is_none());
    sv.update_buttons(1, false);
    assert_eq!(sv.take_pending_pointer(), Some(PointerEvent { x: 5, y: 6, button_mask: 1 }));
    sv.update_buttons(1, true);
    assert_eq!(sv.take_pending_pointer(), Some(PointerEvent { x: 5, y: 6, button_mask: 1 }));
    sv.paste("clip");
    assert_eq!(sv.take_pending_clipboard().unwrap(), "clip");
}
