//! The state that the protocol engine's callbacks leave for the user
//! interface to poll, and the decisions of the credential handshake between
//! the connection thread and the password dialog.
use vstd::prelude::*;

verus! {

/// A rectangle of the framebuffer that the server updated.
#[derive(Debug, Clone, Copy, PartialEq, Eq, Structural)]
pub struct DamageRect {
    pub x: i32,
    pub y: i32,
    pub w: i32,
    pub h: i32,
}

/// What the connection thread hands the protocol engine when it asks for
/// credentials.
#[derive(Debug, Clone)]
pub struct CredentialResult {
    pub username: String,
    pub password: String,
    pub ok: bool,
}

/// The framebuffer the protocol engine holds: size, stride and the address of
/// its pixels (0 when there are none).
#[derive(Debug, Clone, Copy, PartialEq, Eq, Structural)]
pub struct FramebufferInfo {
    pub width: i32,
    pub height: i32,
    pub stride: i32,
    pub data_ptr: u64,
}

/// A request for the user to enter credentials for a server.
pub struct CredentialRequest {
    pub secure: bool,
    pub need_username: bool,
    pub host: String,
    pub port: u16,
    pub username: String,
}

/// A new cursor shape from the server.
pub struct CursorCallbackData {
    pub width: i32,
    pub height: i32,
    pub hotspot_x: i32,
    pub hotspot_y: i32,
    pub data: Vec<u8>,
}

/// What the callbacks have left for the user interface.
pub struct CallbackState {
    pub init_done: Option<(i32, i32)>,
    pub damage_rects: Vec<DamageRect>,
    pub credential_request: Option<CredentialRequest>,
    pub credential_response: Option<CredentialResult>,
    pub credential_cancelled: bool,
    pub cursor_data: Option<CursorCallbackData>,
    pub clipboard_text: Option<String>,
    pub clipboard_available: Option<bool>,
    pub error: Option<String>,
    pub connection_host: String,
    pub connection_port: u16,
    pub connection_username: String,
}

impl Default for CallbackState {
    /// Nothing pending, and no connection context.
    fn default() -> (r: Self)
        ensures
            r.init_done is None,
            r.damage_rects@.len() == 0,
            r.credential_request is None,
            r.credential_response is None,
            !r.credential_cancelled,
            r.cursor_data is None,
            r.clipboard_text is None,
            r.clipboard_available is None,
            r.error is None,
            r.connection_host@.len() == 0,
            r.connection_port == 0,
            r.connection_username@.len() == 0,
    {
        CallbackState {
            init_done: None,
            damage_rects: Vec::new(),
            credential_request: None,
            credential_response: None,
            credential_cancelled: false,
            cursor_data: None,
            clipboard_text: None,
            clipboard_available: None,
            error: None,
            connection_host: String::new(),
            connection_port: 0,
            connection_username: String::new(),
        }
    }
}

/// Takes the framebuffer size reported when the session was set up.
pub fn poll_init_done(state: &mut CallbackState) -> (r: Option<(i32, i32)>)
    ensures
        r == old(state).init_done,
        final(state).init_done is None,
        *final(state) == (CallbackState { init_done: final(state).init_done, ..*old(state) }),
{
    state.init_done.take()
}

/// Takes the damage rectangles reported since the last poll, in order.
pub fn poll_damage_rects(state: &mut CallbackState) -> (r: Vec<DamageRect>)
    ensures
        r@ == old(state).damage_rects@,
        final(state).damage_rects@.len() == 0,
        *final(state) == (CallbackState { damage_rects: final(state).damage_rects, ..*old(state) }),
{
    let mut out: Vec<DamageRect> = Vec::new();
    std::mem::swap(&mut out, &mut state.damage_rects);
    out
}

/// Takes the connection error reported since the last poll.
pub fn poll_error(state: &mut CallbackState) -> (r: Option<String>)
    ensures
        r == old(state).error,
        final(state).error is None,
        *final(state) == (CallbackState { error: final(state).error, ..*old(state) }),
{
    state.error.take()
}

/// Takes the latest cursor shape: width, height, hotspot and pixels.
pub fn poll_cursor_data(state: &mut CallbackState) -> (r: Option<(i32, i32, i32, i32, Vec<u8>)>)
    ensures
        r is Some <==> old(state).cursor_data is Some,
        r matches Some(c) ==> {
            let d = old(state).cursor_data->0;
            &&& c.0 == d.width
            &&& c.1 == d.height
            &&& c.2 == d.hotspot_x
            &&& c.3 == d.hotspot_y
            &&& c.4@ == d.data@
        },
        final(state).cursor_data is None,
        *final(state) == (CallbackState { cursor_data: final(state).cursor_data, ..*old(state) }),
{
    match state.cursor_data.take() {
        Some(c) => Some((c.width, c.height, c.hotspot_x, c.hotspot_y, c.data)),
        None => None,
    }
}

/// Takes the clipboard text the server sent.
pub fn poll_clipboard(state: &mut CallbackState) -> (r: Option<String>)
    ensures
        r == old(state).clipboard_text,
        final(state).clipboard_text is None,
        *final(state) == (CallbackState { clipboard_text: final(state).clipboard_text, ..*old(state) }),
{
    state.clipboard_text.take()
}

/// Takes the pending request for credentials, if the connection thread is
/// waiting for the user.
pub fn poll_credential_request(state: &mut CallbackState) -> (r: Option<CredentialRequest>)
    ensures
        r == old(state).credential_request,
        final(state).credential_request is None,
        *final(state) == (CallbackState { credential_request: final(state).credential_request, ..*old(state) }),
{
    state.credential_request.take()
}

/// Sets the server that the next credential request is about, and forgets
/// earlier answers.
pub fn set_connection_context(state: &mut CallbackState, host: &str, port: u16, username: &str)
    ensures
        final(state).connection_host@ == host@,
        final(state).connection_port == port,
        final(state).connection_username@ == username@,
        final(state).credential_response is None,
        !final(state).credential_cancelled,
        final(state).credential_request == old(state).credential_request,
        *final(state) == (CallbackState { connection_host: final(state).connection_host, connection_port: final(state).connection_port, connection_username: final(state).connection_username, credential_response: final(state).credential_response, credential_cancelled: final(state).credential_cancelled, ..*old(state) }),
{
    state.connection_host = String::from_str(host);
    state.connection_port = port;
    state.connection_username = String::from_str(username);
    state.credential_response = None;
    state.credential_cancelled = false;
}

/// Records the credentials the user entered.
pub fn provide_credentials(state: &mut CallbackState, username: String, password: String)
    ensures
        final(state).credential_response matches Some(c) && c.username == username
            && c.password == password && c.ok,
        final(state).credential_cancelled == old(state).credential_cancelled,
        *final(state) == (CallbackState { credential_response: final(state).credential_response, ..*old(state) }),
{
    state.credential_response = Some(CredentialResult { username, password, ok: true });
}

/// Records that the user cancelled the password dialog.
pub fn cancel_credentials(state: &mut CallbackState)
    ensures
        final(state).credential_cancelled,
        final(state).credential_response == old(state).credential_response,
        *final(state) == (CallbackState { credential_cancelled: final(state).credential_cancelled, ..*old(state) }),
{
    state.credential_cancelled = true;
}

/// The engine finished setting up a session of this size.
pub fn on_init_done(state: &mut CallbackState, width: i32, height: i32)
    ensures
        final(state).init_done == Some((width, height)),
        *final(state) == (CallbackState { init_done: final(state).init_done, ..*old(state) }),
{
    state.init_done = Some((width, height));
}

/// The engine updated a rectangle of the framebuffer.
pub fn on_frame_updated(state: &mut CallbackState, rect: &DamageRect)
    ensures
        final(state).damage_rects@ == old(state).damage_rects@.push(*rect),
        *final(state) == (CallbackState { damage_rects: final(state).damage_rects, ..*old(state) }),
{
    state.damage_rects.push(*rect);
}

/// The engine shows a message; it is acknowledged.
pub fn on_show_message(flags: i32, title: &str, text: &str) -> (r: bool)
    ensures
        r,
{
    true
}

/// The server rang the bell; nothing is kept.
pub fn on_bell() {
}

/// The server sent a new cursor shape.
pub fn on_cursor_changed(
    state: &mut CallbackState,
    width: i32,
    height: i32,
    hotspot_x: i32,
    hotspot_y: i32,
    data: &[u8],
)
    ensures
        final(state).cursor_data matches Some(c) && c.width == width && c.height == height
            && c.hotspot_x == hotspot_x && c.hotspot_y == hotspot_y && c.data@ == data@,
        *final(state) == (CallbackState { cursor_data: final(state).cursor_data, ..*old(state) }),
{
    let mut copy: Vec<u8> = Vec::new();
    let mut i: usize = 0;
    while i < data.len()
        invariant
            i <= data@.len(),
            copy@ == data@.take(i as int),
        decreases data@.len() - i,
    {
        copy.push(data[i]);
        i = i + 1;
        assert(copy@ =~= data@.take(i as int));
    }
    assert(data@.take(data@.len() as int) =~= data@);
    state.cursor_data = Some(
        CursorCallbackData { width, height, hotspot_x, hotspot_y, data: copy },
    );
}

/// The server announced whether it has clipboard data.
pub fn on_clipboard_announce(state: &mut CallbackState, available: bool)
    ensures
        final(state).clipboard_available == Some(available),
        *final(state) == (CallbackState { clipboard_available: final(state).clipboard_available, ..*old(state) }),
{
    state.clipboard_available = Some(available);
}

/// The server sent clipboard text.
pub fn on_clipboard_data(state: &mut CallbackState, text: &str)
    ensures
        final(state).clipboard_text matches Some(t) && t@ == text@,
        *final(state) == (CallbackState { clipboard_text: final(state).clipboard_text, ..*old(state) }),
{
    state.clipboard_text = Some(String::from_str(text));
}

/// The connection failed with this message.
pub fn on_connection_error(state: &mut CallbackState, message: &str)
    ensures
        final(state).error matches Some(e) && e@ == message@,
        *final(state) == (CallbackState { error: final(state).error, ..*old(state) }),
{
    state.error = Some(String::from_str(message));
}

/// The first step of answering the engine's request for credentials.
pub enum CredentialLookup {
    /// Credentials are already there: hand these over.
    Ready(CredentialResult),
    /// Look up a stored password for this login in the keyring first.
    AskKeyring { host: String, port: u16, username: String },
    /// Ask the user.
    AskUser,
}

/// What to do first when the engine asks for credentials: hand over an
/// answer already given, else look in the keyring when a server is known,
/// else ask the user.
pub fn credential_lookup(state: &CallbackState) -> (r: CredentialLookup)
    ensures
        state.credential_response is Some ==> (r matches CredentialLookup::Ready(c) && c
            == state.credential_response->0),
        state.credential_response is None && state.connection_host@.len() > 0 ==> (r matches CredentialLookup::AskKeyring { host, port, username } && host@
            == state.connection_host@ && port == state.connection_port && username@
            == state.connection_username@),
        state.credential_response is None && state.connection_host@.len() == 0 ==> r is AskUser,
{
    match &state.credential_response {
        Some(c) => {
            return CredentialLookup::Ready(
                CredentialResult { username: c.username.clone(), password: c.password.clone(), ok: c.ok },
            );
        },
        None => {},
    }
    if !state.connection_host.as_str().is_empty() {
        CredentialLookup::AskKeyring {
            host: state.connection_host.clone(),
            port: state.connection_port,
            username: state.connection_username.clone(),
        }
    } else {
        CredentialLookup::AskUser
    }
}

/// The credentials to hand over when the keyring holds a password.
pub fn stored_credentials(username: String, password: String) -> (r: CredentialResult)
    ensures
        r.username == username,
        r.password == password,
        r.ok,
{
    CredentialResult { username, password, ok: true }
}

/// Posts a request for the user interface, forgetting any earlier answer.
pub fn post_credential_request(state: &mut CallbackState, secure: bool, need_username: bool)
    ensures
        !final(state).credential_cancelled,
        final(state).credential_response is None,
        final(state).credential_request matches Some(q) && q.secure == secure && q.need_username
            == need_username && q.host@ == old(state).connection_host@ && q.port == old(
            state,
        ).connection_port && q.username@ == old(state).connection_username@,
        final(state).connection_host@ == old(state).connection_host@,
        final(state).connection_port == old(state).connection_port,
        final(state).connection_username@ == old(state).connection_username@,
        *final(state) == (CallbackState { credential_cancelled: final(state).credential_cancelled, credential_response: final(state).credential_response, credential_request: final(state).credential_request, ..*old(state) }),
{
    state.credential_cancelled = false;
    state.credential_response = None;
    state.credential_request = Some(
        CredentialRequest {
            secure,
            need_username,
            host: state.connection_host.clone(),
            port: state.connection_port,
            username: state.connection_username.clone(),
        },
    );
}

/// Whether the connection thread must keep waiting for the user: no answer
/// yet and no cancellation.
pub fn waiting_for_user(state: &CallbackState) -> (r: bool)
    ensures
        r == (state.credential_response is None && !state.credential_cancelled),
{
    state.credential_response.is_none() && !state.credential_cancelled
}

/// Credentials that the engine takes as a refusal.
pub fn no_credentials() -> (r: CredentialResult)
    ensures
        r.username@.len() == 0,
        r.password@.len() == 0,
        !r.ok,
{
    CredentialResult { username: String::new(), password: String::new(), ok: false }
}

/// The answer once the wait is over: a refusal when it timed out or the user
/// cancelled, else the credentials the user gave.
pub fn credential_outcome(state: &CallbackState, timed_out: bool) -> (r: CredentialResult)
    ensures
        timed_out || state.credential_cancelled || state.credential_response is None ==> !r.ok
            && r.username@.len() == 0 && r.password@.len() == 0,
        !timed_out && !state.credential_cancelled && state.credential_response is Some ==> r
            == state.credential_response->0,
{
    if timed_out || state.credential_cancelled {
        return no_credentials();
    }
    match &state.credential_response {
        Some(c) => CredentialResult {
            username: c.username.clone(),
            password: c.password.clone(),
            ok: c.ok,
        },
        None => no_credentials(),
    }
}

/// Whether the framebuffer the engine reports holds pixels worth copying.
pub fn framebuffer_ready(info: &FramebufferInfo) -> (r: bool)
    ensures
        r == (info.width > 0 && info.height > 0 && info.data_ptr != 0),
{
    info.width > 0 && info.height > 0 && info.data_ptr != 0
}

} // verus!
