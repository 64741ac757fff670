//! The connection state machine: its state, the queue of input commands that
//! the user interface fills, the coalescing of pointer moves before they are
//! sent, and the steps of the connection loop.
use vstd::prelude::*;
use crate::text::{chars_of, decimal, push_decimal, string_of};

verus! {

/// Where a connection stands.
#[derive(Debug, Clone)]
pub enum ConnectionState {
    Disconnected,
    Connecting,
    Connected,
    Error(String),
}

/// The mathematical content of a [`ConnectionState`].
pub enum StateView {
    Disconnected,
    Connecting,
    Connected,
    Error(Seq<char>),
}

impl View for ConnectionState {
    type V = StateView;

    open spec fn view(&self) -> StateView {
        match self {
            ConnectionState::Disconnected => StateView::Disconnected,
            ConnectionState::Connecting => StateView::Connecting,
            ConnectionState::Connected => StateView::Connected,
            ConnectionState::Error(m) => StateView::Error(m@),
        }
    }
}

impl PartialEq for ConnectionState {
    fn eq(&self, other: &Self) -> (r: bool) {
        match (self, other) {
            (ConnectionState::Disconnected, ConnectionState::Disconnected) => true,
            (ConnectionState::Connecting, ConnectionState::Connecting) => true,
            (ConnectionState::Connected, ConnectionState::Connected) => true,
            (ConnectionState::Error(a), ConnectionState::Error(b)) => *a == *b,
            _ => false,
        }
    }
}

impl vstd::std_specs::cmp::PartialEqSpecImpl for ConnectionState {
    open spec fn obeys_eq_spec() -> bool {
        true
    }

    open spec fn eq_spec(&self, other: &Self) -> bool {
        self@ == other@
    }
}

impl ConnectionState {
    /// A copy of this state.
    pub fn duplicate(&self) -> (r: ConnectionState)
        ensures
            r@ == self@,
    {
        match self {
            ConnectionState::Disconnected => ConnectionState::Disconnected,
            ConnectionState::Connecting => ConnectionState::Connecting,
            ConnectionState::Connected => ConnectionState::Connected,
            ConnectionState::Error(m) => ConnectionState::Error(m.clone()),
        }
    }
}

/// A command queued for the connection thread.
#[derive(Debug)]
pub enum InputCommand {
    KeyPress(u32, u32),
    KeyRelease(u32),
    Pointer(i32, i32, u8),
    Clipboard(String),
    SetEncoding(i32),
    SetQuality(i32),
    SetCompress(i32),
    Disconnect,
}

/// The mathematical content of an [`InputCommand`].
pub enum CommandView {
    KeyPress(u32, u32),
    KeyRelease(u32),
    Pointer(i32, i32, u8),
    Clipboard(Seq<char>),
    SetEncoding(i32),
    SetQuality(i32),
    SetCompress(i32),
    Disconnect,
}

impl View for InputCommand {
    type V = CommandView;

    open spec fn view(&self) -> CommandView {
        match self {
            InputCommand::KeyPress(c, s) => CommandView::KeyPress(*c, *s),
            InputCommand::KeyRelease(c) => CommandView::KeyRelease(*c),
            InputCommand::Pointer(x, y, m) => CommandView::Pointer(*x, *y, *m),
            InputCommand::Clipboard(t) => CommandView::Clipboard(t@),
            InputCommand::SetEncoding(e) => CommandView::SetEncoding(*e),
            InputCommand::SetQuality(q) => CommandView::SetQuality(*q),
            InputCommand::SetCompress(c) => CommandView::SetCompress(*c),
            InputCommand::Disconnect => CommandView::Disconnect,
        }
    }
}

/// The views of a list of commands.
pub open spec fn command_views(s: Seq<InputCommand>) -> Seq<CommandView> {
    s.map_values(|c: InputCommand| c@)
}

/// Whether `a` and `b` are pointer events with the same button mask.
pub open spec fn same_mask_pointers(a: CommandView, b: CommandView) -> bool {
    match (a, b) {
        (CommandView::Pointer(_, _, ma), CommandView::Pointer(_, _, mb)) => ma == mb,
        _ => false,
    }
}

/// The commands as they are sent: a pointer event replaces the event just
/// before it when that one is a pointer event with the same button mask, so
/// that of each run of such events only the latest position is sent; every
/// other command keeps its place.
pub open spec fn coalesced(cmds: Seq<CommandView>) -> Seq<CommandView>
    decreases cmds.len(),
{
    if cmds.len() == 0 {
        cmds
    } else {
        let rest = coalesced(cmds.drop_last());
        if rest.len() > 0 && same_mask_pointers(rest.last(), cmds.last()) {
            rest.drop_last().push(cmds.last())
        } else {
            rest.push(cmds.last())
        }
    }
}

/// Coalesces consecutive pointer events that share a button mask, keeping
/// the latest position of each run; see [`coalesced`].
pub fn coalesce_commands(commands: Vec<InputCommand>) -> (r: Vec<InputCommand>)
    ensures
        command_views(r@) == coalesced(command_views(commands@)),
{
    let ghost s = command_views(commands@);
    let mut out: Vec<InputCommand> = Vec::new();
    assert(s.take(0) =~= Seq::<CommandView>::empty());
    for cmd in it: commands.into_iter()
        invariant
            it.seq() == commands@,
            s == command_views(commands@),
            command_views(out@) == coalesced(s.take(it.index())),
    {
        let ghost idx = it.index();
        let ghost prev = out@;
        assert(s.take(idx + 1).drop_last() =~= s.take(idx));
        assert(s.take(idx + 1).last() == cmd@);
        let n = out.len();
        let mut replace = false;
        if n > 0 {
            if let InputCommand::Pointer(_, _, m) = &cmd {
                if let InputCommand::Pointer(_, _, pm) = &out[n - 1] {
                    replace = *pm == *m;
                }
            }
        }
        assert(replace == (command_views(prev).len() > 0 && same_mask_pointers(
            command_views(prev).last(),
            cmd@,
        )));
        if replace {
            let ghost cv = cmd@;
            out.set(n - 1, cmd);
            assert(command_views(out@) =~= command_views(prev).drop_last().push(cv));
        } else {
            let ghost cv = cmd@;
            out.push(cmd);
            assert(command_views(out@) =~= command_views(prev).push(cv));
        }
    }
    assert(s.take(s.len() as int) =~= s);
    out
}

/// Whether no two neighbouring commands are pointer events with the same
/// button mask.
pub open spec fn no_mergeable_pointers(s: Seq<CommandView>) -> bool {
    forall|i: int| 0 <= i < s.len() - 1 ==> !same_mask_pointers(#[trigger] s[i], s[i + 1])
}

/// The commands that are not pointer events, in order.
pub open spec fn non_pointer_commands(s: Seq<CommandView>) -> Seq<CommandView>
    decreases s.len(),
{
    if s.len() == 0 {
        s
    } else {
        let rest = non_pointer_commands(s.drop_last());
        if s.last() is Pointer {
            rest
        } else {
            rest.push(s.last())
        }
    }
}

/// Coalescing leaves no two neighbouring pointer events with the same mask,
/// keeps the last command when it is a pointer event, and ends on the last
/// command.
pub proof fn lemma_coalesced_shape(s: Seq<CommandView>)
    ensures
        no_mergeable_pointers(coalesced(s)),
        s.len() > 0 ==> coalesced(s).len() > 0 && coalesced(s).last() == s.last(),
        s.len() == 0 ==> coalesced(s).len() == 0,
    decreases s.len(),
{
    if s.len() > 0 {
        let t = s.drop_last();
        lemma_coalesced_shape(t);
        let rest = coalesced(t);
        if rest.len() > 0 && same_mask_pointers(rest.last(), s.last()) {
            let r = rest.drop_last().push(s.last());
            assert forall|i: int| 0 <= i < r.len() - 1 implies !same_mask_pointers(
                #[trigger] r[i],
                r[i + 1],
            ) by {
                if i + 1 < rest.len() - 1 {
                    assert(r[i] == rest[i] && r[i + 1] == rest[i + 1]);
                } else {
                    // r[i + 1] is the new last; r[i] is rest[i] with i = rest.len() - 2
                    assert(r[i] == rest[i]);
                    assert(!same_mask_pointers(rest[i], rest[i + 1]));
                    assert(same_mask_pointers(rest[i + 1], s.last()));
                }
            }
        } else {
            let r = rest.push(s.last());
            assert forall|i: int| 0 <= i < r.len() - 1 implies !same_mask_pointers(
                #[trigger] r[i],
                r[i + 1],
            ) by {
                if i + 1 < rest.len() {
                    assert(r[i] == rest[i] && r[i + 1] == rest[i + 1]);
                } else {
                    assert(r[i] == rest.last());
                }
            }
        }
    }
}

/// A list with no neighbouring same-mask pointer events is left as it is.
pub proof fn lemma_coalesced_fixed(s: Seq<CommandView>)
    requires
        no_mergeable_pointers(s),
    ensures
        coalesced(s) == s,
    decreases s.len(),
{
    if s.len() > 0 {
        let t = s.drop_last();
        assert(no_mergeable_pointers(t)) by {
            assert forall|i: int| 0 <= i < t.len() - 1 implies !same_mask_pointers(
                #[trigger] t[i],
                t[i + 1],
            ) by {
                assert(t[i] == s[i] && t[i + 1] == s[i + 1]);
            }
        }
        lemma_coalesced_fixed(t);
        if t.len() > 0 {
            assert(t.last() == s[s.len() - 2]);
            assert(!same_mask_pointers(s[s.len() - 2], s[s.len() - 1]));
        }
        assert(t.push(s.last()) =~= s);
    }
}

/// Coalescing twice gives what coalescing once gives.
pub proof fn law_coalesce_idempotent(s: Seq<CommandView>)
    ensures
        coalesced(coalesced(s)) == coalesced(s),
{
    lemma_coalesced_shape(s);
    lemma_coalesced_fixed(coalesced(s));
}

/// Coalescing never reorders, drops or adds a command that is not a pointer
/// event, and leaves no two neighbouring same-mask pointer events.
pub proof fn law_coalesce_keeps_other_commands(s: Seq<CommandView>)
    ensures
        non_pointer_commands(coalesced(s)) == non_pointer_commands(s),
        no_mergeable_pointers(coalesced(s)),
    decreases s.len(),
{
    lemma_coalesced_shape(s);
    if s.len() > 0 {
        let t = s.drop_last();
        law_coalesce_keeps_other_commands(t);
        let rest = coalesced(t);
        if rest.len() > 0 && same_mask_pointers(rest.last(), s.last()) {
            let r = rest.drop_last().push(s.last());
            assert(rest =~= rest.drop_last().push(rest.last()));
            assert(r.drop_last() =~= rest.drop_last());
            assert(non_pointer_commands(rest) == non_pointer_commands(rest.drop_last()));
        } else {
            assert(rest.push(s.last()).drop_last() =~= rest);
        }
    }
}


/// The commands of one round of the connection loop: those before the first
/// disconnect command, and whether there is one (after it nothing is sent).
pub open spec fn batch_plan(cmds: Seq<CommandView>) -> (Seq<CommandView>, bool)
    decreases cmds.len(),
{
    if cmds.len() == 0 {
        (cmds, false)
    } else if cmds[0] is Disconnect {
        (Seq::empty(), true)
    } else {
        let rest = batch_plan(cmds.drop_first());
        (seq![cmds[0]] + rest.0, rest.1)
    }
}

/// Splits the coalesced commands at the first disconnect command: the part
/// before it, and whether it was there.
pub fn plan_batch(commands: Vec<InputCommand>) -> (r: (Vec<InputCommand>, bool))
    ensures
        (command_views(r.0@), r.1) == batch_plan(command_views(commands@)),
{
    let ghost s = command_views(commands@);
    let mut out: Vec<InputCommand> = Vec::new();
    let mut found = false;
    assert(s.skip(0) =~= s);
    for cmd in it: commands.into_iter()
        invariant_except_break
            it.seq() == commands@,
            s == command_views(commands@),
            !found,
            batch_plan(s) == (command_views(out@) + batch_plan(s.skip(it.index())).0, batch_plan(
                s.skip(it.index()),
            ).1),
        ensures
            batch_plan(s) == (command_views(out@), found),
    {
        let ghost idx = it.index();
        let ghost rest = s.skip(idx);
        assert(rest[0] == cmd@);
        assert(rest.drop_first() =~= s.skip(idx + 1));
        if let InputCommand::Disconnect = cmd {
            found = true;
            assert(command_views(out@) + Seq::<CommandView>::empty() =~= command_views(out@));
            break;
        }
        let ghost prev = out@;
        let ghost cv = cmd@;
        out.push(cmd);
        assert(command_views(out@) =~= command_views(prev).push(cv));
        assert(command_views(prev) + (seq![cv] + batch_plan(s.skip(idx + 1)).0) =~= command_views(
            out@,
        ) + batch_plan(s.skip(idx + 1)).0);
    }
    proof {
        if !found {
            assert(s.skip(s.len() as int) =~= Seq::<CommandView>::empty());
            assert(command_views(out@) + Seq::<CommandView>::empty() =~= command_views(out@));
        }
    }
    (out, found)
}

/// The shared state of a connection.
pub struct ConnectionInner {
    pub state: ConnectionState,
    pub framebuffer_width: u32,
    pub framebuffer_height: u32,
    pub framebuffer_stride: u32,
    pub framebuffer_data: Vec<u8>,
    pub framebuffer_generation: u64,
    pub should_disconnect: bool,
    pub input_queue: Vec<InputCommand>,
}

/// A connection to one server: its state, its latest framebuffer copy and the
/// commands waiting to be sent.
pub struct ConnectionManager {
    pub inner: ConnectionInner,
}

/// The error message of a failed connection attempt.
pub open spec fn failure_text(host: Seq<char>, port: u16) -> Seq<char> {
    "Connection failed to "@ + host.push(':') + decimal(port as nat)
}

/// `Connection failed to host:port`.
fn failure_message(host: &str, port: u16) -> (r: String)
    ensures
        r@ == failure_text(host@, port),
{
    let mut cs = chars_of("Connection failed to ");
    let ghost prefix = cs@;
    let hs = chars_of(host);
    let mut i: usize = 0;
    while i < hs.len()
        invariant
            i <= hs@.len(),
            hs@ == host@,
            cs@ == prefix + hs@.take(i as int),
        decreases hs@.len() - i,
    {
        cs.push(hs[i]);
        i = i + 1;
        assert(cs@ =~= prefix + hs@.take(i as int));
    }
    assert(hs@.take(hs@.len() as int) =~= hs@);
    cs.push(':');
    push_decimal(&mut cs, port as u64);
    assert(cs@ =~= failure_text(host@, port));
    string_of(cs.as_slice())
}

impl ConnectionManager {
    /// A manager that is disconnected, with an empty framebuffer and queue.
    pub fn new() -> (r: Self)
        ensures
            r.inner.state@ == StateView::Disconnected,
            r.inner.framebuffer_width == 0,
            r.inner.framebuffer_height == 0,
            r.inner.framebuffer_stride == 0,
            r.inner.framebuffer_data@.len() == 0,
            r.inner.framebuffer_generation == 0,
            !r.inner.should_disconnect,
            r.inner.input_queue@.len() == 0,
    {
        ConnectionManager {
            inner: ConnectionInner {
                state: ConnectionState::Disconnected,
                framebuffer_width: 0,
                framebuffer_height: 0,
                framebuffer_stride: 0,
                framebuffer_data: Vec::new(),
                framebuffer_generation: 0,
                should_disconnect: false,
                input_queue: Vec::new(),
            },
        }
    }

    /// Asks the connection loop to stop.
    pub fn disconnect(&mut self)
        ensures
            final(self).inner.should_disconnect,
            final(self).inner.state@ == old(self).inner.state@,
            command_views(final(self).inner.input_queue@) == command_views(
                old(self).inner.input_queue@,
            ),
            final(self).inner == (ConnectionInner { should_disconnect: final(self).inner.should_disconnect, ..old(self).inner }),
    {
        self.inner.should_disconnect = true;
    }

    /// Appends a command to the queue.
    fn enqueue(&mut self, cmd: InputCommand)
        ensures
            command_views(final(self).inner.input_queue@) == command_views(
                old(self).inner.input_queue@,
            ).push(cmd@),
            final(self).inner.state@ == old(self).inner.state@,
            final(self).inner.should_disconnect == old(self).inner.should_disconnect,
            final(self).inner == (ConnectionInner { input_queue: final(self).inner.input_queue, ..old(self).inner }),
    {
        let ghost prev = self.inner.input_queue@;
        let ghost cv = cmd@;
        self.inner.input_queue.push(cmd);
        assert(command_views(self.inner.input_queue@) =~= command_views(prev).push(cv));
    }

    /// Queues a key press.
    pub fn send_key_press(&mut self, key_code: u32, key_sym: u32)
        ensures
            command_views(final(self).inner.input_queue@) == command_views(
                old(self).inner.input_queue@,
            ).push(CommandView::KeyPress(key_code, key_sym)),
            final(self).inner.state@ == old(self).inner.state@,
            final(self).inner == (ConnectionInner { input_queue: final(self).inner.input_queue, ..old(self).inner }),
    {
        self.enqueue(InputCommand::KeyPress(key_code, key_sym));
    }

    /// Queues a key release.
    pub fn send_key_release(&mut self, key_code: u32)
        ensures
            command_views(final(self).inner.input_queue@) == command_views(
                old(self).inner.input_queue@,
            ).push(CommandView::KeyRelease(key_code)),
            final(self).inner.state@ == old(self).inner.state@,
            final(self).inner == (ConnectionInner { input_queue: final(self).inner.input_queue, ..old(self).inner }),
    {
        self.enqueue(InputCommand::KeyRelease(key_code));
    }

    /// Queues a pointer event.
    pub fn send_pointer(&mut self, x: i32, y: i32, button_mask: u8)
        ensures
            command_views(final(self).inner.input_queue@) == command_views(
                old(self).inner.input_queue@,
            ).push(CommandView::Pointer(x, y, button_mask)),
            final(self).inner.state@ == old(self).inner.state@,
            final(self).inner == (ConnectionInner { input_queue: final(self).inner.input_queue, ..old(self).inner }),
    {
        self.enqueue(InputCommand::Pointer(x, y, button_mask));
    }

    /// Queues clipboard text for the server.
    pub fn send_clipboard(&mut self, text: &str)
        ensures
            command_views(final(self).inner.input_queue@) == command_views(
                old(self).inner.input_queue@,
            ).push(CommandView::Clipboard(text@)),
            final(self).inner.state@ == old(self).inner.state@,
            final(self).inner == (ConnectionInner { input_queue: final(self).inner.input_queue, ..old(self).inner }),
    {
        self.enqueue(InputCommand::Clipboard(String::from_str(text)));
    }

    /// Queues a change of the preferred encoding.
    pub fn set_encoding(&mut self, encoding: i32)
        ensures
            command_views(final(self).inner.input_queue@) == command_views(
                old(self).inner.input_queue@,
            ).push(CommandView::SetEncoding(encoding)),
            final(self).inner.state@ == old(self).inner.state@,
            final(self).inner == (ConnectionInner { input_queue: final(self).inner.input_queue, ..old(self).inner }),
    {
        self.enqueue(InputCommand::SetEncoding(encoding));
    }

    /// Queues a change of the quality level.
    pub fn set_quality(&mut self, level: i32)
        ensures
            command_views(final(self).inner.input_queue@) == command_views(
                old(self).inner.input_queue@,
            ).push(CommandView::SetQuality(level)),
            final(self).inner.state@ == old(self).inner.state@,
            final(self).inner == (ConnectionInner { input_queue: final(self).inner.input_queue, ..old(self).inner }),
    {
        self.enqueue(InputCommand::SetQuality(level));
    }

    /// Queues a change of the compression level.
    pub fn set_compress(&mut self, level: i32)
        ensures
            command_views(final(self).inner.input_queue@) == command_views(
                old(self).inner.input_queue@,
            ).push(CommandView::SetCompress(level)),
            final(self).inner.state@ == old(self).inner.state@,
            final(self).inner == (ConnectionInner { input_queue: final(self).inner.input_queue, ..old(self).inner }),
    {
        self.enqueue(InputCommand::SetCompress(level));
    }

    /// Whether the connection is established.
    pub fn is_connected(&self) -> (r: bool)
        ensures
            r == (self.inner.state@ == StateView::Connected),
    {
        match self.inner.state {
            ConnectionState::Connected => true,
            _ => false,
        }
    }

    /// Whether the connection ended in an error.
    pub fn has_error(&self) -> (r: bool)
        ensures
            r == (self.inner.state@ is Error),
    {
        match self.inner.state {
            ConnectionState::Error(_) => true,
            _ => false,
        }
    }

    /// The current state.
    pub fn state(&self) -> (r: ConnectionState)
        ensures
            r@ == self.inner.state@,
    {
        self.inner.state.duplicate()
    }

    /// The framebuffer's width and height.
    pub fn framebuffer_size(&self) -> (r: (u32, u32))
        ensures
            r == (self.inner.framebuffer_width, self.inner.framebuffer_height),
    {
        (self.inner.framebuffer_width, self.inner.framebuffer_height)
    }

    /// Width, height, stride, a copy of the pixel data and the generation of
    /// the latest framebuffer.
    pub fn framebuffer_snapshot(&self) -> (r: (u32, u32, u32, Vec<u8>, u64))
        ensures
            r.0 == self.inner.framebuffer_width,
            r.1 == self.inner.framebuffer_height,
            r.2 == self.inner.framebuffer_stride,
            r.3@ == self.inner.framebuffer_data@,
            r.4 == self.inner.framebuffer_generation,
    {
        (
            self.inner.framebuffer_width,
            self.inner.framebuffer_height,
            self.inner.framebuffer_stride,
            self.inner.framebuffer_data.clone(),
            self.inner.framebuffer_generation,
        )
    }

    /// The start of a connection attempt: connecting, no stop requested, and
    /// the queue emptied.
    pub fn begin_connect(&mut self)
        ensures
            final(self).inner.state@ == StateView::Connecting,
            !final(self).inner.should_disconnect,
            final(self).inner.input_queue@.len() == 0,
            final(self).inner.framebuffer_generation == old(self).inner.framebuffer_generation,
            final(self).inner == (ConnectionInner { state: final(self).inner.state, should_disconnect: final(self).inner.should_disconnect, input_queue: final(self).inner.input_queue, ..old(self).inner }),
    {
        self.inner.state = ConnectionState::Connecting;
        self.inner.should_disconnect = false;
        self.inner.input_queue.clear();
    }

    /// The outcome of the connection attempt to `host:port`: connected, or
    /// an error that names the address.
    pub fn connect_finished(&mut self, ok: bool, host: &str, port: u16)
        ensures
            final(self).inner.state@ == (if ok {
                StateView::Connected
            } else {
                StateView::Error(failure_text(host@, port))
            }),
            final(self).inner.should_disconnect == old(self).inner.should_disconnect,
            command_views(final(self).inner.input_queue@) == command_views(
                old(self).inner.input_queue@,
            ),
            final(self).inner.framebuffer_generation == old(self).inner.framebuffer_generation,
            final(self).inner == (ConnectionInner { state: final(self).inner.state, ..old(self).inner }),
    {
        if ok {
            self.inner.state = ConnectionState::Connected;
        } else {
            self.inner.state = ConnectionState::Error(failure_message(host, port));
        }
    }

    /// One round's commands for the connection loop. `None` when a stop was
    /// requested (the loop ends); otherwise the queue is emptied and its
    /// commands, coalesced and cut at the first disconnect command, come out,
    /// and a disconnect command among them requests the stop.
    pub fn take_input_batch(&mut self) -> (r: Option<Vec<InputCommand>>)
        ensures
            old(self).inner.should_disconnect ==> r is None && final(self).inner.should_disconnect
                && command_views(final(self).inner.input_queue@) == command_views(
                old(self).inner.input_queue@,
            ),
            !old(self).inner.should_disconnect ==> {
                let plan = batch_plan(coalesced(command_views(old(self).inner.input_queue@)));
                &&& r matches Some(batch)
                &&& command_views(batch@) == plan.0
                &&& final(self).inner.should_disconnect == plan.1
                &&& final(self).inner.input_queue@.len() == 0
            },
            final(self).inner.state@ == old(self).inner.state@,
            final(self).inner.framebuffer_generation == old(self).inner.framebuffer_generation,
            final(self).inner == (ConnectionInner { input_queue: final(self).inner.input_queue, should_disconnect: final(self).inner.should_disconnect, ..old(self).inner }),
    {
        if self.inner.should_disconnect {
            return None;
        }
        let mut commands: Vec<InputCommand> = Vec::new();
        std::mem::swap(&mut commands, &mut self.inner.input_queue);
        let merged = coalesce_commands(commands);
        let (batch, stop) = plan_batch(merged);
        if stop {
            self.inner.should_disconnect = true;
        }
        Some(batch)
    }

    /// Stores a new copy of the framebuffer and counts one more generation.
    pub fn store_framebuffer(&mut self, width: u32, height: u32, stride: u32, data: Vec<u8>)
        requires
            old(self).inner.framebuffer_generation < u64::MAX,
        ensures
            final(self).inner.framebuffer_width == width,
            final(self).inner.framebuffer_height == height,
            final(self).inner.framebuffer_stride == stride,
            final(self).inner.framebuffer_data@ == data@,
            final(self).inner.framebuffer_generation == old(self).inner.framebuffer_generation
                + 1,
            final(self).inner.state@ == old(self).inner.state@,
            final(self).inner.should_disconnect == old(self).inner.should_disconnect,
            command_views(final(self).inner.input_queue@) == command_views(
                old(self).inner.input_queue@,
            ),
            final(self).inner == (ConnectionInner { framebuffer_width: final(self).inner.framebuffer_width, framebuffer_height: final(self).inner.framebuffer_height, framebuffer_stride: final(self).inner.framebuffer_stride, framebuffer_data: final(self).inner.framebuffer_data, framebuffer_generation: final(self).inner.framebuffer_generation, ..old(self).inner }),
    {
        self.inner.framebuffer_width = width;
        self.inner.framebuffer_height = height;
        self.inner.framebuffer_stride = stride;
        self.inner.framebuffer_data = data;
        self.inner.framebuffer_generation = self.inner.framebuffer_generation + 1;
    }

    /// The end of the connection loop: a connected state becomes
    /// disconnected; an error stays.
    pub fn connection_closed(&mut self)
        ensures
            final(self).inner.state@ == (if old(self).inner.state@ == StateView::Connected {
                StateView::Disconnected
            } else {
                old(self).inner.state@
            }),
            final(self).inner == (ConnectionInner { state: final(self).inner.state, ..old(self).inner }),
    {
        if self.is_connected() {
            self.inner.state = ConnectionState::Disconnected;
        }
    }
}

/// What the connection loop does after a round of messages.
#[derive(Debug, Clone, Copy, PartialEq, Eq, Structural)]
pub enum LoopStep {
    /// The connection is gone: leave the loop.
    Stop,
    /// Nothing was processed but the connection holds: wait a moment and go
    /// round again.
    Retry,
    /// Messages were processed: copy the framebuffer and go round again.
    Continue,
}

/// The loop's decision from the socket descriptor, whether the engine
/// processed messages, and whether it is still connected: an invalid
/// socket stops; unprocessed messages stop when the connection is lost and
/// retry otherwise.
pub fn loop_step(socket_fd: i32, processed: bool, still_connected: bool) -> (r: LoopStep)
    ensures
        socket_fd < 0 ==> r == LoopStep::Stop,
        socket_fd >= 0 && !processed && !still_connected ==> r == LoopStep::Stop,
        socket_fd >= 0 && !processed && still_connected ==> r == LoopStep::Retry,
        socket_fd >= 0 && processed ==> r == LoopStep::Continue,
{
    if socket_fd < 0 {
        LoopStep::Stop
    } else if !processed {
        if still_connected {
            LoopStep::Retry
        } else {
            LoopStep::Stop
        }
    } else {
        LoopStep::Continue
    }
}

/// Without a disconnect command every command of the round is sent, in
/// order, and no stop follows.
pub proof fn law_batch_without_disconnect(cmds: Seq<CommandView>)
    requires
        forall|i: int| 0 <= i < cmds.len() ==> !(#[trigger] cmds[i] is Disconnect),
    ensures
        batch_plan(cmds) == (cmds, false),
    decreases cmds.len(),
{
    if cmds.len() > 0 {
        let rest = cmds.drop_first();
        assert forall|i: int| 0 <= i < rest.len() implies !(#[trigger] rest[i] is Disconnect) by {
            assert(rest[i] == cmds[i + 1]);
        }
        law_batch_without_disconnect(rest);
        assert(seq![cmds[0]] + rest =~= cmds);
    }
}

/// With a disconnect command, exactly the commands before the first one are
/// sent, and a stop follows.
pub proof fn law_batch_stops_at_first_disconnect(cmds: Seq<CommandView>, k: int)
    requires
        0 <= k < cmds.len(),
        cmds[k] is Disconnect,
        forall|i: int| 0 <= i < k ==> !(#[trigger] cmds[i] is Disconnect),
    ensures
        batch_plan(cmds) == (cmds.take(k), true),
    decreases k,
{
    if k == 0 {
        assert(cmds.take(0) =~= Seq::<CommandView>::empty());
    } else {
        let rest = cmds.drop_first();
        assert(rest[k - 1] == cmds[k]);
        assert forall|i: int| 0 <= i < k - 1 implies !(#[trigger] rest[i] is Disconnect) by {
            assert(rest[i] == cmds[i + 1]);
        }
        law_batch_stops_at_first_disconnect(rest, k - 1);
        assert(seq![cmds[0]] + rest.take(k - 1) =~= cmds.take(k));
    }
}

} // verus!
