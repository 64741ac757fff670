//! The viewer's decisions between the windows: which entry a connection
//! request opens, how a saved dialog lands in the address book, which session
//! a credential request or a repeated connection belongs to, how a session's
//! input reaches its connection, and what the status bar says.
use vstd::prelude::*;
use crate::address_book::{
    AddressBook, EntryView, ServerEntry, index_of_host_port, index_of_id, lemma_index_of_host_port, lemma_index_of_id,
    marked_connected,
};
use crate::bridge::DamageRect;
use crate::connection::{CommandView, ConnectionInner, ConnectionManager, command_views};
use crate::password_dialog::{PasswordDialog, PasswordResult};
use crate::framebuffer::FrameBuffer;
use crate::session_view::{KeyEvent, PointerEvent, SessionView};
use crate::text::{append_chars, chars_of, decimal, push_decimal, string_of};

verus! {

/// What a session is opened with.
pub struct ConnectTarget {
    pub id: String,
    pub host: String,
    pub port: u16,
    pub username: String,
    pub name: String,
}

/// Whether `t` opens entry `e`.
pub open spec fn targets(t: ConnectTarget, e: EntryView) -> bool {
    &&& t.id@ == e.id
    &&& t.host@ == e.host
    &&& t.port == e.port
    &&& t.username@ == e.username
    &&& t.name@ == e.name
}

/// The name a quick connection gets: the host alone on port 5900, else
/// `host:port`.
pub open spec fn quick_name(host: Seq<char>, port: u16) -> Seq<char> {
    if port == 5900 {
        host
    } else {
        host + seq![':'] + decimal(port as nat)
    }
}

/// The name a quick connection gets: see [`quick_name`].
pub fn quick_connect_name(host: &str, port: u16) -> (r: String)
    ensures
        r@ == quick_name(host@, port),
{
    let mut cs = chars_of(host);
    if port != 5900 {
        cs.push(':');
        push_decimal(&mut cs, port as u64);
    }
    string_of(cs.as_slice())
}

/// The session for an entry of the book.
fn target_of(e: &ServerEntry) -> (r: ConnectTarget)
    ensures
        targets(r, e@),
{
    ConnectTarget {
        id: e.id.clone(),
        host: e.host.clone(),
        port: e.port,
        username: e.username.clone(),
        name: e.name.clone(),
    }
}

/// A request to connect to entry `id`: where the book has it, its connection
/// time is recorded and it is opened; otherwise nothing happens.
pub fn connect_to_entry(book: &mut AddressBook, id: &str) -> (r: Option<ConnectTarget>)
    ensures
        ({
            let s = old(book)@.servers;
            let k = index_of_id(s, id@);
            &&& r is Some <==> k < s.len()
            &&& r matches Some(t) ==> targets(t, s[k])
            &&& k < s.len() ==> marked_connected(s, final(book)@.servers, id@)
            &&& k >= s.len() ==> final(book)@.servers == s
            &&& final(book)@.groups == old(book)@.groups
        }),
{
    proof {
        lemma_index_of_id(book@.servers, id@);
    }
    let target = match book.find(id) {
        Some(e) => Some(target_of(e)),
        None => None,
    };
    if target.is_some() {
        book.mark_connected(id);
    }
    target
}

/// A quick connection to `host:port`. The first entry with that host and
/// port is opened when there is one; otherwise a new entry named after the
/// address (see [`quick_name`]) with the user name `system_username` is added
/// and opened. Either way the opened entry's connection time is recorded.
pub fn quick_connect(book: &mut AddressBook, host: &str, port: u16, system_username: &str) -> (r:
    ConnectTarget)
    ensures
        ({
            let s = old(book)@.servers;
            let j = index_of_host_port(s, host@, port);
            &&& j < s.len() ==> {
                &&& targets(r, s[j])
                &&& marked_connected(s, final(book)@.servers, s[j].id)
                &&& final(book)@.groups == old(book)@.groups
            }
            &&& j >= s.len() ==> exists|e: EntryView|
                {
                    &&& e.id == r.id@
                    &&& e.name == quick_name(host@, port)
                    &&& e.host == host@
                    &&& e.port == port
                    &&& e.username == system_username@
                    &&& e.group == "Default"@
                    &&& e.tags.len() == 0
                    &&& e.notes.len() == 0
                    &&& !e.is_team
                    &&& e.created_at is Some
                    &&& e.last_connected is None
                    &&& marked_connected(s.push(e), final(book)@.servers, e.id)
                    &&& final(book)@.groups == (if old(book)@.groups.contains("Default"@) {
                        old(book)@.groups
                    } else {
                        old(book)@.groups.push("Default"@)
                    })
                }
            &&& j >= s.len() ==> {
                &&& r.host@ == host@
                &&& r.port == port
                &&& r.username@ == system_username@
                &&& r.name@ == quick_name(host@, port)
            }
            &&& index_of_host_port(final(book)@.servers, host@, port) < final(book)@.servers.len()
        }),
{
    proof {
        lemma_index_of_host_port(book@.servers, host@, port);
    }
    let found = match book.find_by_host_port(host, port) {
        Some(e) => Some(target_of(e)),
        None => None,
    };
    match found {
        Some(t) => {
            let ghost before = book@.servers;
            book.mark_connected(t.id.as_str());
            proof {
                lemma_marked_keeps_addresses(before, book@.servers, t.id@, host@, port);
            }
            t
        },
        None => {
            let name = quick_connect_name(host, port);
            let mut entry = ServerEntry::default();
            entry.name = name.clone();
            entry.host = String::from_str(host);
            entry.port = port;
            entry.username = String::from_str(system_username);
            let id = entry.id.clone();
            let ghost e = entry@;
            book.add(entry);
            let ghost added = book@.servers;
            book.mark_connected(id.as_str());
            proof {
                lemma_marked_keeps_addresses(added, book@.servers, id@, host@, port);
                lemma_index_of_host_port(added, host@, port);
                assert(added[added.len() - 1] == e);
            }
            ConnectTarget {
                id,
                host: String::from_str(host),
                port,
                username: String::from_str(system_username),
                name,
            }
        },
    }
}

/// Recording a connection time keeps every entry's address, so lookups by
/// address find the same position.
pub proof fn lemma_marked_keeps_addresses(
    before: Seq<EntryView>,
    after: Seq<EntryView>,
    id: Seq<char>,
    host: Seq<char>,
    port: u16,
)
    requires
        marked_connected(before, after, id),
    ensures
        index_of_host_port(after, host, port) == index_of_host_port(before, host, port),
{
    lemma_index_of_id(before, id);
    assert forall|i: int| 0 <= i < before.len() implies (#[trigger] after[i]).host == before[i].host
        && after[i].port == before[i].port by {}
    lemma_same_addresses(before, after, host, port);
}

/// Lists whose entries have the same addresses, position by position, find
/// an address at the same position.
pub proof fn lemma_same_addresses(a: Seq<EntryView>, b: Seq<EntryView>, host: Seq<char>, port: u16)
    requires
        a.len() == b.len(),
        forall|i: int| 0 <= i < a.len() ==> (#[trigger] b[i]).host == a[i].host && b[i].port == a[i].port,
    ensures
        index_of_host_port(b, host, port) == index_of_host_port(a, host, port),
    decreases a.len(),
{
    if a.len() > 0 {
        assert forall|i: int| 0 <= i < a.drop_first().len() implies (#[trigger] b.drop_first()[i]).host
            == a.drop_first()[i].host && b.drop_first()[i].port == a.drop_first()[i].port by {
            assert(b.drop_first()[i] == b[i + 1]);
            assert(a.drop_first()[i] == a[i + 1]);
        }
        lemma_same_addresses(a.drop_first(), b.drop_first(), host, port);
        assert(b[0].host == a[0].host && b[0].port == a[0].port);
    }
}

/// The entry the dialog edits: a copy of entry `id`, unless the book has no
/// such entry or it is a team entry, which cannot be edited locally.
pub fn entry_to_edit(book: &AddressBook, id: &str) -> (r: Option<ServerEntry>)
    ensures
        ({
            let s = book@.servers;
            let k = index_of_id(s, id@);
            &&& r is Some <==> (k < s.len() && !s[k].is_team)
            &&& r matches Some(e) ==> e@ == s[k]
        }),
{
    proof {
        lemma_index_of_id(book@.servers, id@);
    }
    match book.find(id) {
        Some(e) => {
            if e.is_team {
                None
            } else {
                Some(e.duplicate())
            }
        },
        None => None,
    }
}

/// Puts the entry a dialog saved into the book and gives the identifier it
/// is kept under. An entry whose identifier the book has replaces that
/// entry; otherwise one with the host and port of an entry of the book
/// replaces that entry under its identifier; otherwise it is added.
pub fn save_dialog_entry(book: &mut AddressBook, entry: ServerEntry) -> (r: String)
    ensures
        ({
            let s = old(book)@.servers;
            let e = entry@;
            let k = index_of_id(s, e.id);
            let j = index_of_host_port(s, e.host, e.port);
            &&& k < s.len() ==> {
                &&& r@ == e.id
                &&& final(book)@.servers == s.update(k, e)
                &&& final(book)@.groups == old(book)@.groups
            }
            &&& (k >= s.len() && j < s.len()) ==> {
                &&& r@ == s[j].id
                &&& final(book)@.servers == s.update(
                    index_of_id(s, s[j].id),
                    EntryView { id: s[j].id, ..e },
                )
                &&& final(book)@.groups == old(book)@.groups
            }
            &&& (k >= s.len() && j >= s.len()) ==> {
                &&& r@ == e.id
                &&& final(book)@.servers == s.push(e)
                &&& final(book)@.groups == (if old(book)@.groups.contains(e.group) {
                    old(book)@.groups
                } else {
                    old(book)@.groups.push(e.group)
                })
            }
        }),
{
    proof {
        lemma_index_of_id(book@.servers, entry@.id);
    }
    if book.find(entry.id.as_str()).is_some() {
        let id = entry.id.clone();
        book.update(entry);
        return id;
    }
    proof {
        lemma_index_of_host_port(book@.servers, entry@.host, entry@.port);
    }
    let existing = match book.find_by_host_port(entry.host.as_str(), entry.port) {
        Some(e) => Some(e.id.clone()),
        None => None,
    };
    match existing {
        Some(existing_id) => {
            proof {
                let s = book@.servers;
                let j = index_of_host_port(s, entry@.host, entry@.port);
                lemma_index_of_id(s, s[j].id);
                assert(index_of_id(s, s[j].id) <= j);
            }
            let mut entry = entry;
            entry.id = existing_id.clone();
            book.update(entry);
            existing_id
        },
        None => {
            let id = entry.id.clone();
            book.add(entry);
            id
        },
    }
}

/// What the viewer knows of an open session when it routes a request.
pub struct SessionSlot {
    pub id: String,
    pub host: String,
    pub port: u16,
    pub closed: bool,
}

/// The position of the first open session of entry `id` (the length when
/// there is none).
pub open spec fn open_session_of(s: Seq<SessionSlot>, id: Seq<char>) -> int
    decreases s.len(),
{
    if s.len() == 0 {
        0
    } else if s[0].id@ == id && !s[0].closed {
        0
    } else {
        1 + open_session_of(s.drop_first(), id)
    }
}

/// The position of the first open session with this host and port (the
/// length when there is none).
pub open spec fn open_session_at(s: Seq<SessionSlot>, host: Seq<char>, port: u16) -> int
    decreases s.len(),
{
    if s.len() == 0 {
        0
    } else if s[0].host@ == host && s[0].port == port && !s[0].closed {
        0
    } else {
        1 + open_session_at(s.drop_first(), host, port)
    }
}

/// The open session of entry `id`, if there is one: a second request to
/// connect to an entry brings its session forward instead of opening another.
pub fn find_open_session(sessions: &Vec<SessionSlot>, id: &str) -> (r: Option<usize>)
    ensures
        r is None <==> open_session_of(sessions@, id@) == sessions@.len(),
        r matches Some(i) ==> i == open_session_of(sessions@, id@),
{
    let ghost s = sessions@;
    let mut i: usize = 0;
    assert(s.skip(0) =~= s);
    while i < sessions.len()
        invariant
            s == sessions@,
            i <= s.len(),
            open_session_of(s, id@) == i + open_session_of(s.skip(i as int), id@),
        decreases s.len() - i,
    {
        if crate::text::str_eq(sessions[i].id.as_str(), id) && !sessions[i].closed {
            return Some(i);
        }
        assert(s.skip(i as int).drop_first() =~= s.skip(i + 1));
        i = i + 1;
    }
    None
}

/// The session a credential request for `host:port` belongs to: the first
/// open one with that host and port, else the last session, else none.
pub fn credential_session(sessions: &Vec<SessionSlot>, host: &str, port: u16) -> (r: Option<
    usize,
>)
    ensures
        ({
            let s = sessions@;
            let k = open_session_at(s, host@, port);
            &&& k < s.len() ==> r == Some(k as usize)
            &&& (k >= s.len() && s.len() > 0) ==> r == Some((s.len() - 1) as usize)
            &&& s.len() == 0 ==> r is None
        }),
{
    let ghost s = sessions@;
    let mut i: usize = 0;
    assert(s.skip(0) =~= s);
    while i < sessions.len()
        invariant
            s == sessions@,
            i <= s.len(),
            open_session_at(s, host@, port) == i + open_session_at(s.skip(i as int), host@, port),
        decreases s.len() - i,
    {
        if crate::text::str_eq(sessions[i].host.as_str(), host) && sessions[i].port == port
            && !sessions[i].closed {
            return Some(i);
        }
        assert(s.skip(i as int).drop_first() =~= s.skip(i + 1));
        i = i + 1;
    }
    if sessions.len() > 0 {
        Some(sessions.len() - 1)
    } else {
        None
    }
}

/// The commands that key events become.
pub open spec fn key_commands(keys: Seq<KeyEvent>) -> Seq<CommandView> {
    keys.map_values(
        |k: KeyEvent|
            if k.pressed {
                CommandView::KeyPress(k.key_code, k.key_sym)
            } else {
                CommandView::KeyRelease(k.key_code)
            },
    )
}

/// The command a pending pointer event becomes, if there is one.
pub open spec fn pointer_commands(p: Option<PointerEvent>) -> Seq<CommandView> {
    match p {
        Some(e) => seq![CommandView::Pointer(e.x, e.y, e.button_mask)],
        None => Seq::empty(),
    }
}

/// The command pending clipboard text becomes, if there is some.
pub open spec fn clipboard_commands(c: Option<String>) -> Seq<CommandView> {
    match c {
        Some(t) => seq![CommandView::Clipboard(t@)],
        None => Seq::empty(),
    }
}

/// Hands what a session window collected to its connection: the key events
/// in order, then the latest pointer event, then the pasted text.
pub fn forward_session_input(view: &mut SessionView, conn: &mut ConnectionManager)
    ensures
        command_views(final(conn).inner.input_queue@) == command_views(old(conn).inner.input_queue@)
            + key_commands(old(view).pending_keys@) + pointer_commands(old(view).pending_pointer)
            + clipboard_commands(old(view).pending_clipboard),
        final(conn).inner.state@ == old(conn).inner.state@,
        final(conn).inner == (ConnectionInner { input_queue: final(conn).inner.input_queue, ..old(conn).inner }),
        final(view).pending_keys@.len() == 0,
        final(view).pending_pointer is None,
        final(view).pending_clipboard is None,
        *final(view) == (SessionView {
            pending_keys: final(view).pending_keys,
            pending_pointer: None,
            pending_clipboard: None,
            ..*old(view)
        }),
{
    let ghost q0 = command_views(conn.inner.input_queue@);
    let keys = view.take_pending_keys();
    let mut i: usize = 0;
    while i < keys.len()
        invariant
            i <= keys@.len(),
            command_views(conn.inner.input_queue@) == q0 + key_commands(keys@.take(i as int)),
            conn.inner.state@ == old(conn).inner.state@,
            conn.inner == (ConnectionInner { input_queue: conn.inner.input_queue, ..old(conn).inner }),
        decreases keys@.len() - i,
    {
        let k = keys[i];
        if k.pressed {
            conn.send_key_press(k.key_code, k.key_sym);
        } else {
            conn.send_key_release(k.key_code);
        }
        i = i + 1;
        assert(key_commands(keys@.take(i as int)) =~= key_commands(keys@.take(i - 1)).push(
            key_commands(keys@)[i - 1],
        ));
    }
    assert(keys@.take(keys@.len() as int) =~= keys@);
    let ghost q1 = command_views(conn.inner.input_queue@);
    match view.take_pending_pointer() {
        Some(p) => {
            conn.send_pointer(p.x, p.y, p.button_mask);
        },
        None => {},
    }
    assert(command_views(conn.inner.input_queue@) =~= q1 + pointer_commands(
        old(view).pending_pointer,
    ));
    let ghost q2 = command_views(conn.inner.input_queue@);
    match view.take_pending_clipboard() {
        Some(t) => {
            conn.send_clipboard(t.as_str());
        },
        None => {},
    }
    assert(command_views(conn.inner.input_queue@) =~= q2 + clipboard_commands(
        old(view).pending_clipboard,
    ));
}

/// Shows the connection's latest framebuffer after the server reported
/// changed regions: with a non-empty copy of positive size, the copy is
/// shown and each region counts as one frame; otherwise nothing changes.
pub fn apply_damage(
    view: &mut SessionView,
    width: u32,
    height: u32,
    stride: u32,
    data: Vec<u8>,
    rects: &Vec<DamageRect>,
)
    requires
        old(view).frame_count + rects@.len() <= u64::MAX,
    ensures
        (data@.len() > 0 && width > 0 && height > 0) ==> {
            &&& final(view).renderer.state_of().framebuffer == Some(
                FrameBuffer { width, height, stride, data },
            )
            &&& final(view).frame_count == old(view).frame_count + rects@.len()
        },
        (data@.len() > 0 && width > 0 && height > 0) ==> {
            &&& final(view).renderer.state_of().cursor == old(view).renderer.state_of().cursor
            &&& final(view).renderer.state_of().dirty
            &&& (final(view).renderer is Gpu) == (old(view).renderer is Gpu)
            &&& *final(view) == (SessionView {
                renderer: final(view).renderer,
                frame_count: final(view).frame_count,
                ..*old(view)
            })
        },
        !(data@.len() > 0 && width > 0 && height > 0) ==> *final(view) == *old(view),
{
    if data.len() > 0 && width > 0 && height > 0 {
        let ghost fb = FrameBuffer { width, height, stride, data };
        view.set_framebuffer(FrameBuffer { width, height, stride, data });
        let mut i: usize = 0;
        while i < rects.len()
            invariant
                i <= rects@.len(),
                view.frame_count == old(view).frame_count + i,
                old(view).frame_count + rects@.len() <= u64::MAX,
                view.renderer.state_of().framebuffer == Some(fb),
                view.renderer.state_of().cursor == old(view).renderer.state_of().cursor,
                view.renderer.state_of().dirty,
                (view.renderer is Gpu) == (old(view).renderer is Gpu),
                *view == (SessionView {
                    renderer: view.renderer,
                    frame_count: view.frame_count,
                    ..*old(view)
                }),
            decreases rects@.len() - i,
        {
            let r = &rects[i];
            view.update_region(r.x, r.y, r.w, r.h);
            i = i + 1;
        }
    }
}

/// The count of servers in the status bar: `1 server`, `N servers`.
pub open spec fn server_count_text(count: nat) -> Seq<char> {
    decimal(count) + (if count == 1 {
        " server"@
    } else {
        " servers"@
    })
}

/// The session status in the status bar: `1 active session`,
/// `N active sessions`, or `Ready` when none is open.
pub open spec fn session_status_text(active: nat) -> Seq<char> {
    if active == 0 {
        "Ready"@
    } else {
        decimal(active) + (if active == 1 {
            " active session"@
        } else {
            " active sessions"@
        })
    }
}

/// The count of servers in the status bar: see [`server_count_text`].
pub fn server_count_label(count: u64) -> (r: String)
    ensures
        r@ == server_count_text(count as nat),
{
    let mut cs: Vec<char> = Vec::new();
    push_decimal(&mut cs, count);
    assert(cs@ =~= decimal(count as nat));
    if count == 1 {
        append_chars(&mut cs, " server");
    } else {
        append_chars(&mut cs, " servers");
    }
    string_of(cs.as_slice())
}

/// The session status in the status bar: see [`session_status_text`].
pub fn session_status_label(active: u64) -> (r: String)
    ensures
        r@ == session_status_text(active as nat),
{
    if active == 0 {
        return String::from_str("Ready");
    }
    let mut cs: Vec<char> = Vec::new();
    push_decimal(&mut cs, active);
    assert(cs@ =~= decimal(active as nat));
    if active == 1 {
        append_chars(&mut cs, " active session");
    } else {
        append_chars(&mut cs, " active sessions");
    }
    string_of(cs.as_slice())
}

/// Whether a session window closes this frame. One the user closes (its
/// window, "Disconnect" or "Cancel") always asks its connection to stop and
/// closes; otherwise a session whose connection failed closes, and others
/// stay.
pub fn session_closes(conn: &mut ConnectionManager, user_closed: bool) -> (r: bool)
    ensures
        r == (user_closed || old(conn).inner.state@ is Error),
        user_closed ==> final(conn).inner == (ConnectionInner {
            should_disconnect: true,
            ..old(conn).inner
        }),
        !user_closed ==> final(conn).inner == old(conn).inner,
{
    if user_closed {
        conn.disconnect();
        return true;
    }
    conn.has_error()
}

/// What the viewer does with a password prompt this frame.
pub struct PasswordOutcome {
    /// Credentials to hand to the waiting connection (and to store in the
    /// keyring when `save` is set in them).
    pub provide: Option<PasswordResult>,
    /// Whether the waiting connection is told that the user cancelled.
    pub cancel: bool,
    /// Whether the prompt closes.
    pub close: bool,
}

/// Takes what the user did in a password prompt: confirmed credentials are
/// handed over, a dismissal is passed on, and either closes the prompt.
pub fn password_outcome(dialog: &mut PasswordDialog) -> (r: PasswordOutcome)
    ensures
        r.provide == old(dialog).result,
        r.cancel == old(dialog).cancelled,
        r.close == (old(dialog).result is Some || old(dialog).cancelled),
        *final(dialog) == (PasswordDialog { result: None, ..*old(dialog) }),
{
    let provide = dialog.take_result();
    let cancel = dialog.is_cancelled();
    let close = provide.is_some() || cancel;
    PasswordOutcome { provide, cancel, close }
}

} // verus!
