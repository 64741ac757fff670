//! A session window's input side: the keys, pointer state and clipboard text
//! collected from the user interface until the connection takes them, the
//! mapping from keys to X11 keysyms, and the renderer of the session.
use vstd::prelude::*;
use crate::framebuffer::{CursorData, FrameBuffer};
use crate::render::Renderer;

verus! {

/// A key press or release to send, as an X11 keysym.
#[derive(Debug, Clone, Copy, PartialEq, Eq, Structural)]
pub struct KeyEvent {
    pub key_code: u32,
    pub key_sym: u32,
    pub pressed: bool,
}

/// A pointer position and button state to send.
#[derive(Debug, Clone, Copy, PartialEq, Eq, Structural)]
pub struct PointerEvent {
    pub x: i32,
    pub y: i32,
    pub button_mask: u8,
}

/// The keys of the user interface that have their own keysym; text keys come
/// as text instead.
#[derive(Debug, Clone, Copy, PartialEq, Eq, Structural)]
pub enum Key {
    Escape,
    Tab,
    Backspace,
    Enter,
    Space,
    Insert,
    Delete,
    Home,
    End,
    PageUp,
    PageDown,
    ArrowLeft,
    ArrowUp,
    ArrowRight,
    ArrowDown,
    F1,
    F2,
    F3,
    F4,
    F5,
    F6,
    F7,
    F8,
    F9,
    F10,
    F11,
    F12,
    Other,
}

/// The X11 keysym of a key, if it has one.
pub open spec fn keysym_of(key: Key) -> Option<u32> {
    match key {
        Key::Escape => Some(0xff1bu32),
        Key::Tab => Some(0xff09u32),
        Key::Backspace => Some(0xff08u32),
        Key::Enter => Some(0xff0du32),
        Key::Space => Some(0x0020u32),
        Key::Insert => Some(0xff63u32),
        Key::Delete => Some(0xffffu32),
        Key::Home => Some(0xff50u32),
        Key::End => Some(0xff57u32),
        Key::PageUp => Some(0xff55u32),
        Key::PageDown => Some(0xff56u32),
        Key::ArrowLeft => Some(0xff51u32),
        Key::ArrowUp => Some(0xff52u32),
        Key::ArrowRight => Some(0xff53u32),
        Key::ArrowDown => Some(0xff54u32),
        Key::F1 => Some(0xffbeu32),
        Key::F2 => Some(0xffbfu32),
        Key::F3 => Some(0xffc0u32),
        Key::F4 => Some(0xffc1u32),
        Key::F5 => Some(0xffc2u32),
        Key::F6 => Some(0xffc3u32),
        Key::F7 => Some(0xffc4u32),
        Key::F8 => Some(0xffc5u32),
        Key::F9 => Some(0xffc6u32),
        Key::F10 => Some(0xffc7u32),
        Key::F11 => Some(0xffc8u32),
        Key::F12 => Some(0xffc9u32),
        Key::Other => None,
    }
}

/// The X11 keysym of a key of the user interface, if it has one.
pub fn egui_key_to_keysym(key: &Key) -> (r: Option<u32>)
    ensures
        r == keysym_of(*key),
{
    match key {
        Key::Escape => Some(0xff1b),
        Key::Tab => Some(0xff09),
        Key::Backspace => Some(0xff08),
        Key::Enter => Some(0xff0d),
        Key::Space => Some(0x0020),
        Key::Insert => Some(0xff63),
        Key::Delete => Some(0xffff),
        Key::Home => Some(0xff50),
        Key::End => Some(0xff57),
        Key::PageUp => Some(0xff55),
        Key::PageDown => Some(0xff56),
        Key::ArrowLeft => Some(0xff51),
        Key::ArrowUp => Some(0xff52),
        Key::ArrowRight => Some(0xff53),
        Key::ArrowDown => Some(0xff54),
        Key::F1 => Some(0xffbe),
        Key::F2 => Some(0xffbf),
        Key::F3 => Some(0xffc0),
        Key::F4 => Some(0xffc1),
        Key::F5 => Some(0xffc2),
        Key::F6 => Some(0xffc3),
        Key::F7 => Some(0xffc4),
        Key::F8 => Some(0xffc5),
        Key::F9 => Some(0xffc6),
        Key::F10 => Some(0xffc7),
        Key::F11 => Some(0xffc8),
        Key::F12 => Some(0xffc9),
        Key::Other => None,
    }
}

/// The function keys in order.
pub open spec fn function_keys() -> Seq<Key> {
    seq![
        Key::F1,
        Key::F2,
        Key::F3,
        Key::F4,
        Key::F5,
        Key::F6,
        Key::F7,
        Key::F8,
        Key::F9,
        Key::F10,
        Key::F11,
        Key::F12,
    ]
}

/// Function key F(i+1) has keysym 0xffbe + i: the keysyms of F1 to F12 are
/// consecutive.
pub proof fn law_function_keysyms_consecutive(i: int)
    requires
        0 <= i < 12,
    ensures
        keysym_of(function_keys()[i]) == Some((0xffbe + i) as u32),
{
}

/// Which way the wheel turned in a frame.
#[derive(Debug, Clone, Copy, PartialEq, Eq, Structural)]
pub enum Scroll {
    Up,
    Down,
    Still,
}

/// The RFB button mask: bit 0 primary, bit 1 middle, bit 2 secondary, bit 3
/// wheel up, bit 4 wheel down.
pub open spec fn mask_of(primary: bool, middle: bool, secondary: bool, scroll: Scroll) -> u8 {
    ((if primary { 1u8 } else { 0u8 }) + (if middle { 2u8 } else { 0u8 }) + (if secondary {
        4u8
    } else {
        0u8
    }) + (match scroll {
        Scroll::Up => 8u8,
        Scroll::Down => 16u8,
        Scroll::Still => 0u8,
    })) as u8
}

/// The button mask of the pointer's state.
pub fn pointer_buttons(primary: bool, middle: bool, secondary: bool, scroll: Scroll) -> (r: u8)
    ensures
        r == mask_of(primary, middle, secondary, scroll),
{
    let mut m: u8 = 0;
    if primary {
        m = m + 1;
    }
    if middle {
        m = m + 2;
    }
    if secondary {
        m = m + 4;
    }
    match scroll {
        Scroll::Up => {
            m = m + 8;
        },
        Scroll::Down => {
            m = m + 16;
        },
        Scroll::Still => {},
    }
    m
}

/// The key events of typed text: a press and a release of each character's
/// code point, character after character.
pub open spec fn text_key_events(text: Seq<char>) -> Seq<KeyEvent>
    decreases text.len(),
{
    if text.len() == 0 {
        Seq::empty()
    } else {
        let c = text.last() as u32;
        text_key_events(text.drop_last()).push(
            KeyEvent { key_code: c, key_sym: c, pressed: true },
        ).push(KeyEvent { key_code: c, key_sym: c, pressed: false })
    }
}

/// A session window's input state and renderer.
pub struct SessionView {
    pub renderer: Renderer,
    pub frame_count: u64,
    pub mouse_x: i32,
    pub mouse_y: i32,
    pub button_mask: u8,
    pub pending_keys: Vec<KeyEvent>,
    pub pending_pointer: Option<PointerEvent>,
    pub pending_clipboard: Option<String>,
}

impl SessionView {
    /// A view with no framebuffer, no frames and nothing pending.
    pub fn new() -> (r: Self)
        ensures
            r.renderer is Software,
            r.renderer.state_of().framebuffer is None,
            r.renderer.state_of().cursor is None,
            r.renderer.state_of().dirty,
            r.frame_count == 0,
            r.mouse_x == 0,
            r.mouse_y == 0,
            r.button_mask == 0,
            r.pending_keys@.len() == 0,
            r.pending_pointer is None,
            r.pending_clipboard is None,
    {
        SessionView {
            renderer: Renderer::new(),
            frame_count: 0,
            mouse_x: 0,
            mouse_y: 0,
            button_mask: 0,
            pending_keys: Vec::new(),
            pending_pointer: None,
            pending_clipboard: None,
        }
    }

    /// Shows a new framebuffer.
    pub fn set_framebuffer(&mut self, fb: FrameBuffer)
        ensures
            final(self).renderer.state_of().framebuffer == Some(fb),
            final(self).renderer.state_of().cursor == old(self).renderer.state_of().cursor,
            final(self).renderer.state_of().dirty,
            (final(self).renderer is Gpu) == (old(self).renderer is Gpu),
            final(self).frame_count == old(self).frame_count,
            *final(self) == (SessionView { renderer: final(self).renderer, ..*old(self) }),
    {
        self.renderer.set_framebuffer(fb);
    }

    /// A region changed: one more frame.
    pub fn update_region(&mut self, x: i32, y: i32, w: i32, h: i32)
        requires
            old(self).frame_count < u64::MAX,
        ensures
            final(self).frame_count == old(self).frame_count + 1,
            final(self).renderer.state_of().framebuffer == old(self).renderer.state_of().framebuffer,
            final(self).renderer.state_of().cursor == old(self).renderer.state_of().cursor,
            final(self).renderer.state_of().dirty,
            (final(self).renderer is Gpu) == (old(self).renderer is Gpu),
            *final(self) == (SessionView { renderer: final(self).renderer, frame_count: final(self).frame_count, ..*old(self) }),
    {
        self.renderer.update_region(x, y, w, h);
        self.frame_count = self.frame_count + 1;
    }

    /// Shows a new cursor shape.
    pub fn set_cursor(&mut self, cursor: CursorData)
        ensures
            final(self).renderer.state_of().cursor == Some(cursor),
            final(self).frame_count == old(self).frame_count,
            *final(self) == (SessionView { renderer: final(self).renderer, ..*old(self) }),
    {
        self.renderer.set_cursor(cursor);
    }

    /// The framebuffer's width and height, (0, 0) when there is none.
    pub fn framebuffer_size(&self) -> (r: (u32, u32))
        ensures
            r == (match self.renderer.state_of().framebuffer {
                Some(fb) => (fb.width, fb.height),
                None => (0u32, 0u32),
            }),
    {
        self.renderer.framebuffer_size()
    }

    /// The number of updated regions shown so far.
    pub fn frame_count(&self) -> (r: u64)
        ensures
            r == self.frame_count,
    {
        self.frame_count
    }

    /// Takes the key events collected so far.
    pub fn take_pending_keys(&mut self) -> (r: Vec<KeyEvent>)
        ensures
            r@ == old(self).pending_keys@,
            final(self).pending_keys@.len() == 0,
            final(self).pending_pointer == old(self).pending_pointer,
            final(self).pending_clipboard == old(self).pending_clipboard,
            *final(self) == (SessionView { pending_keys: final(self).pending_keys, ..*old(self) }),
    {
        let mut out: Vec<KeyEvent> = Vec::new();
        std::mem::swap(&mut out, &mut self.pending_keys);
        out
    }

    /// Takes the latest pointer event.
    pub fn take_pending_pointer(&mut self) -> (r: Option<PointerEvent>)
        ensures
            r == old(self).pending_pointer,
            final(self).pending_pointer is None,
            final(self).pending_keys@ == old(self).pending_keys@,
            final(self).pending_clipboard == old(self).pending_clipboard,
            *final(self) == (SessionView { pending_pointer: final(self).pending_pointer, ..*old(self) }),
    {
        self.pending_pointer.take()
    }

    /// Takes the text the user pasted.
    pub fn take_pending_clipboard(&mut self) -> (r: Option<String>)
        ensures
            r == old(self).pending_clipboard,
            final(self).pending_clipboard is None,
            final(self).pending_keys@ == old(self).pending_keys@,
            final(self).pending_pointer == old(self).pending_pointer,
            *final(self) == (SessionView { pending_clipboard: final(self).pending_clipboard, ..*old(self) }),
    {
        self.pending_clipboard.take()
    }

    /// Moves the remote pointer to this framebuffer position.
    pub fn set_mouse_position(&mut self, x: i32, y: i32)
        ensures
            final(self).mouse_x == x,
            final(self).mouse_y == y,
            final(self).button_mask == old(self).button_mask,
            final(self).pending_pointer == old(self).pending_pointer,
            final(self).pending_keys@ == old(self).pending_keys@,
            *final(self) == (SessionView { mouse_x: final(self).mouse_x, mouse_y: final(self).mouse_y, ..*old(self) }),
    {
        self.mouse_x = x;
        self.mouse_y = y;
    }

    /// The buttons of this frame: when they changed or the pointer hovers the
    /// image, the mask is kept and a pointer event at the mouse position is
    /// pending.
    pub fn update_buttons(&mut self, new_mask: u8, hovered: bool)
        ensures
            new_mask != old(self).button_mask || hovered ==> {
                &&& final(self).button_mask == new_mask
                &&& final(self).pending_pointer == Some(
                    PointerEvent { x: old(self).mouse_x, y: old(self).mouse_y, button_mask: new_mask },
                )
            },
            !(new_mask != old(self).button_mask || hovered) ==> final(self).button_mask == old(
                self,
            ).button_mask && final(self).pending_pointer == old(self).pending_pointer,
            final(self).mouse_x == old(self).mouse_x,
            final(self).mouse_y == old(self).mouse_y,
            final(self).pending_keys@ == old(self).pending_keys@,
            *final(self) == (SessionView { button_mask: final(self).button_mask, pending_pointer: final(self).pending_pointer, ..*old(self) }),
    {
        if new_mask != self.button_mask || hovered {
            self.button_mask = new_mask;
            self.pending_pointer = Some(
                PointerEvent { x: self.mouse_x, y: self.mouse_y, button_mask: self.button_mask },
            );
        }
    }

    /// A key went down or up: keys with a keysym queue an event, others are
    /// ignored.
    pub fn key_input(&mut self, key: Key, pressed: bool)
        ensures
            final(self).pending_keys@ == (match keysym_of(key) {
                Some(sym) => old(self).pending_keys@.push(
                    KeyEvent { key_code: sym, key_sym: sym, pressed },
                ),
                None => old(self).pending_keys@,
            }),
            final(self).pending_pointer == old(self).pending_pointer,
            *final(self) == (SessionView { pending_keys: final(self).pending_keys, ..*old(self) }),
    {
        if let Some(sym) = egui_key_to_keysym(&key) {
            self.pending_keys.push(KeyEvent { key_code: sym, key_sym: sym, pressed });
        }
    }

    /// Text was typed: each character is queued as a press and a release of
    /// its code point.
    pub fn text_input(&mut self, text: &str)
        ensures
            final(self).pending_keys@ == old(self).pending_keys@ + text_key_events(text@),
            final(self).pending_pointer == old(self).pending_pointer,
            *final(self) == (SessionView { pending_keys: final(self).pending_keys, ..*old(self) }),
    {
        let ghost start = self.pending_keys@;
        let ghost t = text@;
        assert(t.take(0) =~= Seq::<char>::empty());
        assert(start + text_key_events(Seq::<char>::empty()) =~= start);
        for ch in it: text.chars()
            invariant
                it.seq() == t,
                self.pending_keys@ == start + text_key_events(t.take(it.index())),
                self.pending_pointer == old(self).pending_pointer,
                *self == (SessionView { pending_keys: self.pending_keys, ..*old(self) }),
        {
            let ghost idx = it.index();
            assert(t.take(idx + 1).drop_last() =~= t.take(idx));
            assert(t.take(idx + 1).last() == ch);
            let sym: u32 = ch as u32;
            self.pending_keys.push(KeyEvent { key_code: sym, key_sym: sym, pressed: true });
            self.pending_keys.push(KeyEvent { key_code: sym, key_sym: sym, pressed: false });
            assert(self.pending_keys@ =~= start + text_key_events(t.take(idx + 1)));
        }
        assert(t.take(t.len() as int) =~= t);
    }

    /// Text was pasted: it becomes the pending clipboard text.
    pub fn paste(&mut self, text: &str)
        ensures
            final(self).pending_clipboard matches Some(t) && t@ == text@,
            final(self).pending_keys@ == old(self).pending_keys@,
            final(self).pending_pointer == old(self).pending_pointer,
            *final(self) == (SessionView { pending_clipboard: final(self).pending_clipboard, ..*old(self) }),
    {
        self.pending_clipboard = Some(String::from_str(text));
    }
}

/// Typed text yields two key events per character, and the events of two
/// texts typed one after the other are those of the joined text.
pub proof fn law_text_events_concat(a: Seq<char>, b: Seq<char>)
    ensures
        text_key_events(a + b) == text_key_events(a) + text_key_events(b),
        text_key_events(a).len() == 2 * a.len(),
    decreases b.len(), a.len(),
{
    if b.len() == 0 {
        assert(a + b =~= a);
        assert(text_key_events(a) + text_key_events(b) =~= text_key_events(a));
        lemma_text_events_len(a);
    } else {
        assert((a + b).drop_last() =~= a + b.drop_last());
        assert((a + b).last() == b.last());
        law_text_events_concat(a, b.drop_last());
        let c = b.last() as u32;
        let p = KeyEvent { key_code: c, key_sym: c, pressed: true };
        let q = KeyEvent { key_code: c, key_sym: c, pressed: false };
        assert((text_key_events(a) + text_key_events(b.drop_last())).push(p).push(q) =~= text_key_events(a) + text_key_events(b.drop_last()).push(p).push(q));
    }
}

/// Typed text yields two key events per character.
pub proof fn lemma_text_events_len(a: Seq<char>)
    ensures
        text_key_events(a).len() == 2 * a.len(),
    decreases a.len(),
{
    if a.len() > 0 {
        lemma_text_events_len(a.drop_last());
    }
}

/// Typed text becomes, character by character in order, a press and then a
/// release whose key code and keysym are both the character's Unicode code
/// point (so `A` is sent as 0x41 and `a` as 0x61).
pub proof fn law_text_events_are_code_points(text: Seq<char>)
    ensures
        text_key_events(text).len() == 2 * text.len(),
        forall|i: int|
            0 <= i < text.len() ==> {
                &&& #[trigger] text_key_events(text)[2 * i] == KeyEvent {
                    key_code: text[i] as u32,
                    key_sym: text[i] as u32,
                    pressed: true,
                }
                &&& text_key_events(text)[2 * i + 1] == KeyEvent {
                    key_code: text[i] as u32,
                    key_sym: text[i] as u32,
                    pressed: false,
                }
            },
    decreases text.len(),
{
    lemma_text_events_len(text);
    if text.len() > 0 {
        let d = text.drop_last();
        law_text_events_are_code_points(d);
        lemma_text_events_len(d);
        let ev = text_key_events(text);
        let prev = text_key_events(d);
        assert forall|i: int| 0 <= i < text.len() implies {
            &&& #[trigger] ev[2 * i] == KeyEvent {
                key_code: text[i] as u32,
                key_sym: text[i] as u32,
                pressed: true,
            }
            &&& ev[2 * i + 1] == KeyEvent {
                key_code: text[i] as u32,
                key_sym: text[i] as u32,
                pressed: false,
            }
        } by {
            if i < d.len() {
                assert(d[i] == text[i]);
                assert(ev[2 * i] == prev[2 * i]);
                assert(ev[2 * i + 1] == prev[2 * i + 1]);
            } else {
                assert(text[i] == text.last());
            }
        }
    }
}

} // verus!
