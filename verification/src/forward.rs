//! Port forwarding: pairs a non-blocking byte stream with a stream of the
//! session, buffering each direction so neither side blocks. The sockets
//! themselves are the caller's; what came of reading or writing one is handed in.

use crate::client::{ClientCore, ClientView};
use crate::server::ServerCore;
use crate::stream::{EventView, StreamEvent};
use crate::text::{push_decimal, utf8_text};
use crate::transport::SessionId;
use crate::wire::StreamKind;
use crate::xfer::{XferRequest, XferView};
use vstd::prelude::*;
use vstd::slice::slice_to_vec;

verus! {

/// Cap on the unacknowledged bytes of a stream, and on the bytes that wait for a
/// socket: a fast producer cannot grow a buffer without bound.
pub const SEND_CAP: u64 = 524288;

/// What came of one attempt to read or to write.
#[derive(Debug, Clone, Copy, PartialEq, Eq, Structural)]
pub enum Io {
    /// So many bytes went through. None were read: the peer closed its side.
    Moved(usize),
    /// Nothing can be done now.
    WouldBlock,
    /// The attempt was interrupted.
    Interrupted,
    /// The connection failed.
    Failed,
}

/// The state of a forwarded connection.
pub struct ConnView {
    /// Bytes received from the session, waiting to be written to the socket.
    pub out: Seq<u8>,
    /// The socket's peer closed its side, or the socket failed.
    pub tcp_closed: bool,
    /// The session's peer closed its side.
    pub peer_closed: bool,
    /// The session's peer was told that no more bytes follow.
    pub fin_sent: bool,
}

impl ConnView {
    /// A new connection.
    pub open spec fn fresh() -> ConnView {
        ConnView { out: Seq::empty(), tcp_closed: false, peer_closed: false, fin_sent: false }
    }

    /// The state after an attempt to read from the socket.
    pub open spec fn after_read(self, e: Io) -> ConnView {
        match e {
            Io::Moved(n) => ConnView { tcp_closed: self.tcp_closed || n == 0, ..self },
            Io::Failed => ConnView { tcp_closed: true, ..self },
            _ => self,
        }
    }

    /// The state after an attempt to write to the socket.
    pub open spec fn after_write(self, e: Io) -> ConnView {
        match e {
            Io::Moved(n) => ConnView { out: self.out.skip(n as int), ..self },
            Io::Failed => ConnView { out: Seq::empty(), tcp_closed: true, ..self },
            _ => self,
        }
    }

    /// The state after bytes came from the session.
    pub open spec fn queued(self, data: Seq<u8>) -> ConnView {
        ConnView { out: self.out + data, ..self }
    }

    /// The session's peer is to be told that no more bytes follow.
    pub open spec fn owes_fin(self) -> bool {
        self.tcp_closed && !self.fin_sent
    }

    /// Both sides closed and every byte was delivered.
    pub open spec fn finished(self) -> bool {
        self.tcp_closed && self.peer_closed && self.out.len() == 0
    }
}

/// Reading goes on after this attempt.
pub open spec fn reads_on(e: Io) -> bool {
    match e {
        Io::Moved(n) => n > 0,
        Io::Interrupted => true,
        _ => false,
    }
}

/// One forwarded connection.
#[derive(Debug)]
pub struct ForwardConn {
    out: Vec<u8>,
    tcp_closed: bool,
    peer_closed: bool,
    fin_sent: bool,
}

impl View for ForwardConn {
    type V = ConnView;

    closed spec fn view(&self) -> ConnView {
        ConnView {
            out: self.out@,
            tcp_closed: self.tcp_closed,
            peer_closed: self.peer_closed,
            fin_sent: self.fin_sent,
        }
    }
}

impl ForwardConn {
    pub fn new() -> (r: ForwardConn)
        ensures
            r@ == ConnView::fresh(),
    {
        let r = ForwardConn {
            out: Vec::new(),
            tcp_closed: false,
            peer_closed: false,
            fin_sent: false,
        };
        assert(r@.out =~= Seq::<u8>::empty());
        r
    }

    /// Note what came of reading from the socket. True if reading goes on.
    pub fn read_tcp(&mut self, e: Io) -> (r: bool)
        ensures
            final(self)@ == old(self)@.after_read(e),
            r == reads_on(e),
    {
        match e {
            Io::Moved(n) => {
                if n == 0 {
                    self.tcp_closed = true;
                }
                n > 0
            },
            Io::WouldBlock => false,
            Io::Interrupted => true,
            Io::Failed => {
                self.tcp_closed = true;
                false
            },
        }
    }

    /// Queue bytes (from the session) to be written to the socket.
    pub fn queue_to_tcp(&mut self, data: &[u8])
        ensures
            final(self)@ == old(self)@.queued(data@),
    {
        self.out.extend_from_slice(data);
        assert(self@.out =~= old(self)@.out + data@);
    }

    /// The bytes that wait to be written to the socket.
    pub fn waiting(&self) -> (r: &[u8])
        ensures
            r@ == self@.out,
    {
        self.out.as_slice()
    }

    /// Note what came of writing the waiting bytes to the socket. True if writing
    /// goes on.
    pub fn flush(&mut self, e: Io) -> (r: bool)
        requires
            e matches Io::Moved(n) ==> n <= old(self)@.out.len(),
        ensures
            final(self)@ == old(self)@.after_write(e),
            r == (reads_on(e) && final(self)@.out.len() > 0),
    {
        match e {
            Io::Moved(n) => {
                let rest: Vec<u8> = slice_to_vec(
                    vstd::slice::slice_subrange(self.out.as_slice(), n, self.out.len()),
                );
                assert(rest@ =~= self.out@.skip(n as int));
                self.out = rest;
                n > 0 && self.out.len() > 0
            },
            Io::WouldBlock => false,
            Io::Interrupted => self.out.len() > 0,
            Io::Failed => {
                self.tcp_closed = true;
                self.out = Vec::new();
                assert(self@.out =~= Seq::<u8>::empty());
                false
            },
        }
    }

    /// The socket's peer has closed and all buffered output has been written.
    pub fn is_done(&self) -> (r: bool)
        ensures
            r == (self@.tcp_closed && self@.out.len() == 0),
    {
        self.tcp_closed && self.out.len() == 0
    }

    pub fn tcp_closed(&self) -> (r: bool)
        ensures
            r == self@.tcp_closed,
    {
        self.tcp_closed
    }

    /// How many bytes wait to be written to the socket.
    pub fn out_len(&self) -> (r: usize)
        ensures
            r == self@.out.len(),
    {
        self.out.len()
    }

    /// Bytes wait to be written to the socket.
    pub fn wants_write(&self) -> (r: bool)
        ensures
            r == (self@.out.len() > 0),
    {
        self.out.len() > 0
    }

    /// The session's peer closed its side: what waits is still delivered.
    pub fn mark_peer_closed(&mut self)
        ensures
            final(self)@ == (ConnView { peer_closed: true, ..old(self)@ }),
    {
        self.peer_closed = true;
    }

    /// True once, after the socket's peer closed: the session's peer is to be told.
    pub fn needs_fin(&mut self) -> (r: bool)
        ensures
            r == old(self)@.owes_fin(),
            final(self)@ == (ConnView { fin_sent: old(self)@.tcp_closed || old(self)@.fin_sent, ..old(
                self,
            )@ }),
    {
        if self.tcp_closed && !self.fin_sent {
            self.fin_sent = true;
            true
        } else {
            false
        }
    }

    /// Both sides closed and every byte was delivered.
    pub fn is_finished(&self) -> (r: bool)
        ensures
            r == self@.finished(),
    {
        self.tcp_closed && self.peer_closed && self.out.len() == 0
    }
}

// ---------------------------------------------------------------------------
// What an event of a stream asks for
// ---------------------------------------------------------------------------

/// What an event of a stream asks for.
pub enum ActionView {
    Nothing,
    /// Connect a stream to this address.
    Dial { id: u64, target: Seq<char> },
    /// Connect a stream to the local agent.
    DialAgent { id: u64 },
    /// Close a stream that leads nowhere.
    Refuse { id: u64 },
    /// Write a stream to this file.
    Store { id: u64, path: Seq<char> },
    /// Send this file on a stream.
    Load { id: u64, path: Seq<char> },
    /// Run this command on a stream.
    Exec { id: u64, command: Seq<char> },
    /// Abort a stream that asks for what cannot be read.
    Reject { id: u64 },
    /// The peer closed its side of a stream, with this status.
    PeerClosed { id: u64, status: i32 },
    /// The peer aborted a stream.
    Drop { id: u64 },
}

/// What an event of a stream asks for.
#[derive(Debug)]
pub enum Action {
    Nothing,
    /// Connect a stream to this address.
    Dial { id: u64, target: String },
    /// Connect a stream to the local agent.
    DialAgent { id: u64 },
    /// Close a stream that leads nowhere.
    Refuse { id: u64 },
    /// Write a stream to this file.
    Store { id: u64, path: String },
    /// Send this file on a stream.
    Load { id: u64, path: String },
    /// Run this command on a stream.
    Exec { id: u64, command: String },
    /// Abort a stream that asks for what cannot be read.
    Reject { id: u64 },
    /// The peer closed its side of a stream, with this status.
    PeerClosed { id: u64, status: i32 },
    /// The peer aborted a stream.
    Drop { id: u64 },
}

impl View for Action {
    type V = ActionView;

    open spec fn view(&self) -> ActionView {
        match *self {
            Action::Nothing => ActionView::Nothing,
            Action::Dial { id, target } => ActionView::Dial { id, target: target@ },
            Action::DialAgent { id } => ActionView::DialAgent { id },
            Action::Refuse { id } => ActionView::Refuse { id },
            Action::Store { id, path } => ActionView::Store { id, path: path@ },
            Action::Load { id, path } => ActionView::Load { id, path: path@ },
            Action::Exec { id, command } => ActionView::Exec { id, command: command@ },
            Action::Reject { id } => ActionView::Reject { id },
            Action::PeerClosed { id, status } => ActionView::PeerClosed { id, status },
            Action::Drop { id } => ActionView::Drop { id },
        }
    }
}

/// The text that bytes hold.
pub open spec fn text_of(bytes: Seq<u8>) -> Option<Seq<char>> {
    if vstd::utf8::valid_utf8(bytes) {
        Some(vstd::utf8::decode_utf8(bytes))
    } else {
        None
    }
}

/// What a forward stream asks for.
pub open spec fn dial(id: u64, meta: Seq<u8>) -> ActionView {
    match text_of(meta) {
        Some(target) => ActionView::Dial { id, target },
        None => ActionView::Refuse { id },
    }
}

/// What a transfer stream asks for.
pub open spec fn transfer(id: u64, meta: Seq<u8>) -> ActionView {
    match text_of(meta) {
        Some(t) => match crate::xfer::request_of(t) {
            Some(XferView::Put { path, size }) => ActionView::Store { id, path },
            Some(XferView::Get { path }) => ActionView::Load { id, path },
            None => ActionView::Reject { id },
        },
        None => ActionView::Reject { id },
    }
}

/// The event that announces a stream to the peer of the side that opened it.
pub open spec fn announcement(mux: crate::stream::MuxView, id: u64) -> EventView {
    EventView::Opened { id, kind: mux.streams[id].kind, meta: mux.streams[id].meta }
}

/// What an event asks of a client that forwards ports.
pub open spec fn client_asks(ev: EventView) -> ActionView {
    match ev {
        EventView::Opened { id, kind, meta } => if kind == StreamKind::Forward {
            dial(id, meta)
        } else {
            ActionView::Nothing
        },
        EventView::Readable { .. } => ActionView::Nothing,
        EventView::Closed { id, status } => ActionView::PeerClosed { id, status },
        EventView::Reset { id } => ActionView::Drop { id },
    }
}

/// What an event asks of a client that shares its agent.
pub open spec fn agent_asks(ev: EventView) -> ActionView {
    match ev {
        EventView::Opened { id, kind, meta } => if kind == StreamKind::Agent {
            ActionView::DialAgent { id }
        } else {
            ActionView::Nothing
        },
        EventView::Readable { .. } => ActionView::Nothing,
        EventView::Closed { id, status } => ActionView::PeerClosed { id, status },
        EventView::Reset { id } => ActionView::Drop { id },
    }
}

/// What an event asks of a server. One that starts shells as another user neither
/// touches files nor runs commands.
pub open spec fn server_asks(ev: EventView, drops: bool) -> ActionView {
    match ev {
        EventView::Opened { id, kind, meta } => match kind {
            StreamKind::Forward => dial(id, meta),
            StreamKind::FileTransfer => if drops {
                ActionView::Reject { id }
            } else {
                transfer(id, meta)
            },
            StreamKind::Session => match text_of(meta) {
                Some(command) => if drops {
                    ActionView::Reject { id }
                } else {
                    ActionView::Exec { id, command }
                },
                None => ActionView::Reject { id },
            },
            StreamKind::Agent => ActionView::Nothing,
        },
        EventView::Readable { .. } => ActionView::Nothing,
        EventView::Closed { id, status } => ActionView::PeerClosed { id, status },
        EventView::Reset { id } => ActionView::Drop { id },
    }
}

fn dial_action(id: u64, meta: &[u8]) -> (r: Action)
    ensures
        r@ == dial(id, meta@),
{
    match utf8_text(meta) {
        Some(target) => Action::Dial { id, target },
        None => Action::Refuse { id },
    }
}

fn transfer_action(id: u64, meta: &[u8]) -> (r: Action)
    ensures
        r@ == transfer(id, meta@),
{
    match XferRequest::parse(meta) {
        Some(XferRequest::Put { path, size: _ }) => Action::Store { id, path },
        Some(XferRequest::Get { path }) => Action::Load { id, path },
        None => Action::Reject { id },
    }
}

/// What an event asks of a client that forwards ports: to dial out for a stream
/// that the server opened, or to take note of its end.
pub fn client_action(ev: &StreamEvent) -> (r: Action)
    ensures
        r@ == client_asks(ev@),
{
    match ev {
        StreamEvent::Opened { id, kind, meta } => match kind {
            StreamKind::Forward => dial_action(*id, meta.as_slice()),
            _ => Action::Nothing,
        },
        StreamEvent::Readable { id: _ } => Action::Nothing,
        StreamEvent::Closed { id, status } => Action::PeerClosed { id: *id, status: *status },
        StreamEvent::Reset { id } => Action::Drop { id: *id },
    }
}

/// What an event asks of a client that shares its agent.
pub fn agent_action(ev: &StreamEvent) -> (r: Action)
    ensures
        r@ == agent_asks(ev@),
{
    match ev {
        StreamEvent::Opened { id, kind, meta: _ } => match kind {
            StreamKind::Agent => Action::DialAgent { id: *id },
            _ => Action::Nothing,
        },
        StreamEvent::Readable { id: _ } => Action::Nothing,
        StreamEvent::Closed { id, status } => Action::PeerClosed { id: *id, status: *status },
        StreamEvent::Reset { id } => Action::Drop { id: *id },
    }
}

/// What an event asks of a server. `drops` says that it starts shells as another
/// user: it then refuses transfers and commands, which would run as its own.
pub fn server_action(ev: &StreamEvent, drops: bool) -> (r: Action)
    ensures
        r@ == server_asks(ev@, drops),
{
    match ev {
        StreamEvent::Opened { id, kind, meta } => match kind {
            StreamKind::Forward => dial_action(*id, meta.as_slice()),
            StreamKind::FileTransfer => if drops {
                Action::Reject { id: *id }
            } else {
                transfer_action(*id, meta.as_slice())
            },
            StreamKind::Session => if drops {
                Action::Reject { id: *id }
            } else {
                match utf8_text(meta.as_slice()) {
                    Some(command) => Action::Exec { id: *id, command },
                    None => Action::Reject { id: *id },
                }
            },
            StreamKind::Agent => Action::Nothing,
        },
        StreamEvent::Readable { id: _ } => Action::Nothing,
        StreamEvent::Closed { id, status } => Action::PeerClosed { id: *id, status: *status },
        StreamEvent::Reset { id } => Action::Drop { id: *id },
    }
}

/// The name of the directory in which a user's agent sockets lie.
pub fn agent_dir_name(user: u32) -> (r: String)
    ensures
        r@ == "noissh-agent-"@ + crate::text::decimal(user as nat),
{
    let mut r: String = "noissh-agent-".to_owned();
    push_decimal(&mut r, user as u64);
    r
}

/// Whether a path that is already there can be that directory: it is one, and it
/// belongs to the user.
pub fn agent_dir_is_ours(is_dir: bool, owner: u32, user: u32) -> (r: bool)
    ensures
        r == (is_dir && owner == user),
{
    is_dir && owner == user
}

/// The name of the socket at which the shell of a session reaches the client's
/// agent: the process and a number that no other session of it has.
pub fn agent_socket_name(process: u32, number: u64) -> (r: String)
    ensures
        r@ == "noissh-agent-"@ + crate::text::decimal(process as nat) + "-"@ + crate::text::decimal(
            number as nat,
        ) + ".sock"@,
{
    let mut r: String = "noissh-agent-".to_owned();
    push_decimal(&mut r, process as u64);
    r.push_str("-");
    push_decimal(&mut r, number);
    r.push_str(".sock");
    r
}

/// A session already listens on a port.
pub open spec fn listens(open: Seq<(Seq<u8>, u16)>, sid: Seq<u8>, port: u16) -> bool {
    exists|i: int| 0 <= i < open.len() && #[trigger] open[i] == (sid, port)
}

/// The sessions and the ports that they listen on.
pub open spec fn listener_views(open: Seq<(SessionId, u16)>) -> Seq<(Seq<u8>, u16)> {
    Seq::new(open.len(), |i: int| (open[i].0@, open[i].1))
}

/// Whether a session already listens on a port, so that a request that was sent
/// again opens nothing.
pub fn is_listening(open: &Vec<(SessionId, u16)>, sid: &SessionId, port: u16) -> (r: bool)
    ensures
        r == listens(listener_views(open@), sid@, port),
{
    let ghost views = listener_views(open@);
    let mut i: usize = 0;
    while i < open.len()
        invariant
            i <= open@.len(),
            views == listener_views(open@),
            forall|j: int| 0 <= j < i ==> #[trigger] views[j] != (sid@, port),
        decreases open@.len() - i,
    {
        assert(views[i as int] == (open@[i as int].0@, open@[i as int].1));
        if open[i].1 == port && crate::server::same_id(&open[i].0, sid) {
            assert(views[i as int] == (sid@, port));
            return true;
        }
        i += 1;
    }
    false
}

// ---------------------------------------------------------------------------
// Moving bytes between a connection and its stream
// ---------------------------------------------------------------------------

/// The multiplexer after bytes from a socket were handed to a stream, and the
/// stream was closed if the socket was.
pub open spec fn handed_over(
    mux: crate::stream::MuxView,
    id: u64,
    data: Seq<u8>,
    fin: bool,
) -> crate::stream::MuxView {
    let written = if data.len() > 0 {
        mux.written(id, data)
    } else {
        mux
    };
    if fin {
        written.closed(id, 0)
    } else {
        written
    }
}

/// Move what a stream of the client holds to its connection, unless too much
/// waits there: a socket that is stuck holds the session's peer back.
pub fn client_drain(core: &mut ClientCore, id: u64, conn: &mut ForwardConn)
    requires
        old(core).wf(),
    ensures
        final(core).wf(),
        if old(conn)@.out.len() < SEND_CAP {
            &&& final(conn)@ == old(conn)@.queued(old(core)@.mux.readable(id))
            &&& final(core)@ == (ClientView { mux: old(core)@.mux.after_read(id), ..old(core)@ })
        } else {
            final(conn)@ == old(conn)@ && final(core)@ == old(core)@
        },
{
    if (conn.out_len() as u64) < SEND_CAP {
        let data: Vec<u8> = core.stream_read(id);
        conn.queue_to_tcp(data.as_slice());
    }
}

/// A connection of the client may be read: not too much is unacknowledged.
pub fn client_has_room(core: &ClientCore, id: u64) -> (r: bool)
    requires
        core.wf(),
    ensures
        r == (core@.mux.in_flight(id) < SEND_CAP),
{
    core.stream_in_flight(id) < SEND_CAP
}

/// Hand what was read from a connection of the client to its stream, and tell the
/// peer once that no more follows. True if the connection is finished.
pub fn client_hand_over(core: &mut ClientCore, id: u64, conn: &mut ForwardConn, data: &[u8]) -> (r:
    bool)
    requires
        old(core).wf(),
    ensures
        final(core).wf(),
        final(core)@ == (ClientView {
            mux: handed_over(old(core)@.mux, id, data@, old(conn)@.owes_fin()),
            ..old(core)@
        }),
        final(conn)@ == (ConnView { fin_sent: old(conn)@.tcp_closed || old(conn)@.fin_sent, ..old(
            conn,
        )@ }),
        r == old(conn)@.finished(),
{
    if data.len() > 0 {
        core.stream_write(id, data);
    }
    if conn.needs_fin() {
        core.stream_close(id);
    }
    conn.is_finished()
}

/// Move what a stream of a session holds to its connection, unless too much waits
/// there.
pub fn server_drain(core: &mut ServerCore, sid: &SessionId, id: u64, conn: &mut ForwardConn)
    requires
        old(core).wf(),
    ensures
        final(core).wf(),
        if old(conn)@.out.len() < SEND_CAP {
            match old(core)@.session(sid@) {
                Some(s) => {
                    &&& final(conn)@ == old(conn)@.queued(s.mux.readable(id))
                    &&& final(core)@ == old(core)@.with_mux(sid@, s.mux.after_read(id))
                },
                None => final(conn)@ == old(conn)@ && final(core)@ == old(core)@,
            }
        } else {
            final(conn)@ == old(conn)@ && final(core)@ == old(core)@
        },
{
    if (conn.out_len() as u64) < SEND_CAP {
        let data: Vec<u8> = core.stream_read(sid, id);
        conn.queue_to_tcp(data.as_slice());
        assert(old(conn)@.out + Seq::<u8>::empty() =~= old(conn)@.out);
    }
}

/// A connection of a session may be read: not too much is unacknowledged.
pub fn server_has_room(core: &ServerCore, sid: &SessionId, id: u64) -> (r: bool)
    requires
        core.wf(),
    ensures
        r == match core@.session(sid@) {
            Some(s) => s.mux.in_flight(id) < SEND_CAP,
            None => true,
        },
{
    core.stream_in_flight(sid, id) < SEND_CAP
}

/// Hand what was read from a connection of a session to its stream, and tell the
/// peer once that no more follows. True if the connection is finished.
pub fn server_hand_over(
    core: &mut ServerCore,
    sid: &SessionId,
    id: u64,
    conn: &mut ForwardConn,
    data: &[u8],
) -> (r: bool)
    requires
        old(core).wf(),
    ensures
        final(core).wf(),
        match old(core)@.session(sid@) {
            Some(s) => final(core)@ == old(core)@.with_mux(
                sid@,
                handed_over(s.mux, id, data@, old(conn)@.owes_fin()),
            ),
            None => final(core)@ == old(core)@,
        },
        final(conn)@ == (ConnView { fin_sent: old(conn)@.tcp_closed || old(conn)@.fin_sent, ..old(
            conn,
        )@ }),
        r == old(conn)@.finished(),
{
    proof {
        crate::server::lemma_with_mux(core@, sid@);
    }
    let ghost before = core@;
    let ghost fin = conn@.owes_fin();
    if data.len() > 0 {
        core.stream_write(sid, id, data);
    }
    proof {
        if let Some(s) = before.session(sid@) {
            let m = handed_over(s.mux, id, data@, false);
            assert(core@ == before.with_mux(sid@, m));
            assert(before.with_mux(sid@, m).with_mux(sid@, m.closed(id, 0)) == before.with_mux(
                sid@,
                m.closed(id, 0),
            ));
        }
    }
    if conn.needs_fin() {
        core.stream_close(sid, id);
    }
    conn.is_finished()
}

// ---------------------------------------------------------------------------
// Laws
// ---------------------------------------------------------------------------

/// Nothing is lost or reordered on the way to the socket: what a write takes,
/// followed by what still waits, is what waited before, followed by what was
/// queued.
pub proof fn law_bytes_in_order(c: ConnView, data: Seq<u8>, n: usize)
    requires
        n <= c.out.len() + data.len(),
    ensures
        ({
            let queued = c.queued(data);
            queued.out.take(n as int) + queued.after_write(Io::Moved(n)).out == c.out + data
        }),
{
    let queued = c.queued(data);
    assert(queued.out.take(n as int) + queued.out.skip(n as int) =~= c.out + data);
}

/// The session's peer is told once that the socket closed, and not again whatever
/// follows.
pub proof fn law_fin_is_told_once(c: ConnView, read: Io, write: Io, data: Seq<u8>)
    ensures
        ({
            let told = ConnView { fin_sent: true, ..c };
            &&& !told.owes_fin()
            &&& !told.after_read(read).owes_fin()
            &&& !told.after_write(write).owes_fin()
            &&& !told.queued(data).owes_fin()
        }),
        !c.fin_sent && c.tcp_closed ==> c.owes_fin(),
{
}

/// A connection that is finished stays so until more bytes are queued.
pub proof fn law_finished_stays(c: ConnView, read: Io)
    requires
        c.finished(),
    ensures
        c.after_read(read).finished(),
        c.after_write(Io::WouldBlock).finished(),
{
}

/// A server that starts shells as another user does nothing with files and runs no
/// commands, whatever a client asks for.
pub proof fn law_dropped_server_is_confined(ev: EventView)
    ensures
        ({
            let a = server_asks(ev, true);
            &&& !(a is Store)
            &&& !(a is Load)
            &&& !(a is Exec)
        }),
{
}

/// The target of a forward, as one side asks for it, is the address that the other side
/// connects to: the server for a local forward, the client for a remote one. One that is
/// no text leads nowhere.
pub proof fn law_forward_leads_to_target(id: u64, target: Seq<char>, meta: Seq<u8>, drops: bool)
    ensures
        ({
            let asked = EventView::Opened {
                id,
                kind: StreamKind::Forward,
                meta: vstd::utf8::encode_utf8(target),
            };
            let other = EventView::Opened { id, kind: StreamKind::Forward, meta };
            &&& server_asks(asked, drops) == ActionView::Dial { id, target }
            &&& client_asks(asked) == ActionView::Dial { id, target }
            &&& !vstd::utf8::valid_utf8(meta) ==> {
                &&& server_asks(other, drops) == ActionView::Refuse { id }
                &&& client_asks(other) == ActionView::Refuse { id }
            }
        }),
{
    vstd::utf8::encode_utf8_valid_utf8(target);
    vstd::utf8::encode_utf8_decode_utf8(target);
}

/// A copy is served as it was asked for: an upload is written to the path that the
/// client named, and a download sends the file at that path.
pub proof fn law_copy_is_served_as_asked(id: u64, path: Seq<char>, size: u64)
    requires
        path.len() > 0,
    ensures
        ({
            let meta = |r: XferView| vstd::utf8::encode_utf8(crate::xfer::request_text(r));
            let put = meta(XferView::Put { path, size });
            let get = meta(XferView::Get { path });
            let kind = StreamKind::FileTransfer;
            &&& server_asks(EventView::Opened { id, kind, meta: put }, false)
                == ActionView::Store { id, path }
            &&& server_asks(EventView::Opened { id, kind, meta: get }, false)
                == ActionView::Load { id, path }
            &&& server_asks(EventView::Opened { id, kind, meta: put }, true)
                == ActionView::Reject { id }
            &&& server_asks(EventView::Opened { id, kind, meta: get }, true)
                == ActionView::Reject { id }
        }),
{
    crate::xfer::law_request_roundtrip(XferView::Put { path, size });
    crate::xfer::law_request_roundtrip(XferView::Get { path });
}

/// A command is run as the client wrote it.
pub proof fn law_command_is_run_as_asked(id: u64, command: Seq<char>)
    ensures
        ({
            let asked = EventView::Opened {
                id,
                kind: StreamKind::Session,
                meta: vstd::utf8::encode_utf8(command),
            };
            &&& server_asks(asked, false) == ActionView::Exec { id, command }
            &&& server_asks(asked, true) == ActionView::Reject { id }
        }),
{
    vstd::utf8::encode_utf8_valid_utf8(command);
    vstd::utf8::encode_utf8_decode_utf8(command);
}

/// The end of a stream is passed on with its status, and an abort as an abort, to
/// whoever the stream belongs to. Bytes that came in ask for nothing of their own.
pub proof fn law_ends_are_passed_on(id: u64, status: i32, drops: bool)
    ensures
        ({
            let closed = EventView::Closed { id, status };
            let reset = EventView::Reset { id };
            let read = EventView::Readable { id };
            &&& server_asks(closed, drops) == ActionView::PeerClosed { id, status }
            &&& client_asks(closed) == ActionView::PeerClosed { id, status }
            &&& agent_asks(closed) == ActionView::PeerClosed { id, status }
            &&& server_asks(reset, drops) == ActionView::Drop { id }
            &&& client_asks(reset) == ActionView::Drop { id }
            &&& agent_asks(reset) == ActionView::Drop { id }
            &&& server_asks(read, drops) == ActionView::Nothing
            &&& client_asks(read) == ActionView::Nothing
            &&& agent_asks(read) == ActionView::Nothing
        }),
{
}

/// A client connects a stream of the server's to nothing but what it forwards: to an
/// address only if the stream is a forward, and to its agent only if it shares the agent
/// and the stream asks for it.
pub proof fn law_client_is_confined(ev: EventView)
    ensures
        client_asks(ev) is Dial ==> (ev matches EventView::Opened { kind, .. } && kind
            == StreamKind::Forward),
        client_asks(ev) !is DialAgent,
        client_asks(ev) !is Store && client_asks(ev) !is Load && client_asks(ev) !is Exec,
        agent_asks(ev) is DialAgent <==> (ev matches EventView::Opened { kind, .. } && kind
            == StreamKind::Agent),
        agent_asks(ev) !is Dial,
        agent_asks(ev) !is Store && agent_asks(ev) !is Load && agent_asks(ev) !is Exec,
        agent_asks(ev) matches ActionView::DialAgent { id } ==> (ev matches EventView::Opened {
            id: i,
            ..
        } && i == id),
{
}

/// A connection lasts until both sides are closed and every byte was written: the end
/// of the socket's bytes, or its failure, closes the one side and nothing else does.
pub proof fn law_connection_lasts(c: ConnView, n: usize)
    ensures
        c.finished() <==> c.tcp_closed && c.peer_closed && c.out.len() == 0,
        c.after_read(Io::Moved(0)).tcp_closed,
        c.after_read(Io::Failed).tcp_closed,
        n > 0 ==> c.after_read(Io::Moved(n)) == c,
        c.after_read(Io::WouldBlock) == c,
        c.after_read(Io::Interrupted) == c,
        c.after_write(Io::WouldBlock) == c,
        c.after_write(Io::Interrupted) == c,
        c.after_write(Io::Failed).tcp_closed,
        c.after_write(Io::Failed).out.len() == 0,
        c.after_write(Io::Moved(n)).tcp_closed == c.tcp_closed,
        c.after_write(Io::Moved(n)).peer_closed == c.peer_closed,
        c.after_read(Io::Moved(n)).out == c.out,
        reads_on(Io::Interrupted),
        reads_on(Io::Moved(n)) <==> n > 0,
        !reads_on(Io::WouldBlock) && !reads_on(Io::Failed),
{
}

/// Bytes that a socket gives in two parts reach the stream as they would in one, and the
/// socket's end follows them.
pub proof fn law_parts_reach_the_stream(
    mux: crate::stream::MuxView,
    id: u64,
    a: Seq<u8>,
    b: Seq<u8>,
    fin: bool,
)
    requires
        mux.streams.contains_key(id),
        mux.streams[id].send.next() + a.len() + b.len() <= u64::MAX,
    ensures
        ({
            let t = handed_over(mux, id, a + b, fin);
            &&& handed_over(handed_over(mux, id, a, false), id, b, fin) == t
            &&& t.streams.contains_key(id)
            &&& t.streams[id].send.buf == mux.streams[id].send.buf + a + b
            &&& fin ==> t.streams[id].fin.closed && t.streams[id].fin.status == Some(0i32)
            &&& !fin ==> t.streams[id].fin == mux.streams[id].fin
        }),
{
    let x = mux.streams[id];
    assert(x.send.buf + (a + b) =~= x.send.buf + a + b);
    assert(x.send.buf + Seq::<u8>::empty() =~= x.send.buf);
    let one = handed_over(handed_over(mux, id, a, false), id, b, fin);
    let two = handed_over(mux, id, a + b, fin);
    if a.len() == 0 {
        assert(a + b =~= b);
    }
    if b.len() == 0 {
        assert(a + b =~= a);
    }
    assert(one.streams =~= two.streams);
}

/// Bytes handed to one stream change no other.
pub proof fn law_streams_are_kept_apart(
    mux: crate::stream::MuxView,
    id: u64,
    other: u64,
    data: Seq<u8>,
    fin: bool,
)
    requires
        id != other,
    ensures
        handed_over(mux, id, data, fin).streams.contains_key(other)
            == mux.streams.contains_key(other),
        mux.streams.contains_key(other) ==> handed_over(mux, id, data, fin).streams[other]
            == mux.streams[other],
        handed_over(mux, id, data, fin).events == mux.events,
{
}

} // verus!
