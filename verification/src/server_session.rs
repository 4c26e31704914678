//! One session of a server: its shell and pty, its streams, and its life from
//! handshake to exit.

use crate::control::{ControlMsg, ControlView};
use crate::shell::{ServerShell, ServerShellView};
use crate::stream::{EventView, MuxView, StreamEvent, StreamMux};
use crate::transport::{Addr, Session, SessionView, MAX_DATAGRAM_PLAINTEXT};
use crate::wire::{Frame, FrameView};
use vstd::prelude::*;

verus! {

/// How many ticks to keep retransmitting the Exit notice before reclaiming a
/// finished session (the notice is best-effort; this bounds delivery + memory).
pub const EXIT_RETRANSMIT_TICKS: u32 = 50;

/// Reap a session whose client has been silent for this many ticks (no acks,
/// no keepalives). A live client sends keepalives well within this window; this
/// is also the grace during which a vanished client may reattach. At the
/// server's tick cadence (~tens of ms) this is on the order of minutes.
pub const IDLE_REAP_TICKS: u32 = 20_000;

/// The state of a session.
pub struct ServerSessionView {
    pub session: SessionView,
    pub shell: Option<ServerShellView>,
    /// A pty runs.
    pub pty: bool,
    pub rows: u16,
    pub cols: u16,
    /// The authenticated client static key, used to reattach a returning client.
    pub client_key: Seq<u8>,
    /// Ticks since an authenticated packet came from this client.
    pub idle_ticks: u32,
    /// How the shell ended, once it has.
    pub exit_status: Option<i32>,
    /// Ticks since then.
    pub exit_ticks: u32,
    /// The client was told the server's version.
    pub announced: bool,
    /// The client has said that it is done.
    pub left: bool,
    pub mux: MuxView,
}

/// Datagrams with where they go.
pub type Datagrams = Seq<(Addr, Seq<u8>)>;

/// What datagrams hold.
pub open spec fn datagrams(v: Seq<(Addr, Vec<u8>)>) -> Datagrams {
    Seq::new(v.len(), |i: int| (v[i].0, v[i].1@))
}

/// What is to be done with the pty of a session.
#[derive(Debug)]
pub enum PtyAction {
    Nothing,
    /// Write bytes to the shell.
    Write(Vec<u8>),
    /// Start a shell with this geometry and terminal type. `agent` asks for a
    /// socket at which the client's agent can be reached.
    Spawn { cols: u16, rows: u16, term: String, agent: bool },
    /// Give the pty another size.
    Resize { cols: u16, rows: u16 },
}

/// What an action says.
pub enum PtyActionView {
    Nothing,
    Write(Seq<u8>),
    Spawn { cols: u16, rows: u16, term: Seq<char>, agent: bool },
    Resize { cols: u16, rows: u16 },
}

impl View for PtyAction {
    type V = PtyActionView;

    open spec fn view(&self) -> PtyActionView {
        match *self {
            PtyAction::Nothing => PtyActionView::Nothing,
            PtyAction::Write(b) => PtyActionView::Write(b@),
            PtyAction::Spawn { cols, rows, term, agent } => PtyActionView::Spawn {
                cols,
                rows,
                term: term@,
                agent,
            },
            PtyAction::Resize { cols, rows } => PtyActionView::Resize { cols, rows },
        }
    }
}

/// The control message of a frame.
pub open spec fn control_of(f: FrameView) -> Option<ControlView> {
    match f {
        FrameView::Control { data } => match crate::control::control_at(data) {
            Ok(m) => Some(m),
            Err(_) => None,
        },
        _ => None,
    }
}

impl ServerSessionView {
    /// A state that a session can be in.
    pub open spec fn wf(self) -> bool {
        &&& self.shell matches Some(s) ==> s.wf()
        &&& self.mux.wf()
        &&& self.exit_ticks < EXIT_RETRANSMIT_TICKS
        &&& self.exit_status is Some ==> !self.pty
    }

    /// A session that has just been established.
    pub open spec fn fresh(session: SessionView, key: Seq<u8>, mux: MuxView) -> ServerSessionView {
        ServerSessionView {
            session,
            shell: None,
            pty: false,
            rows: 24,
            cols: 80,
            client_key: key,
            idle_ticks: 0,
            exit_status: None,
            exit_ticks: 0,
            announced: false,
            left: false,
            mux,
        }
    }

    /// A shell runs in the session.
    pub open spec fn running(self) -> bool {
        self.exit_status is None && !self.left && (self.shell is Some || self.pty)
    }

    /// With the running shell of another session of the same client, whose
    /// screen is sent as a full snapshot.
    pub open spec fn taking_over(self, old: ServerSessionView) -> ServerSessionView {
        ServerSessionView {
            shell: match old.shell {
                Some(s) => Some(s.rebound()),
                None => None,
            },
            pty: old.pty,
            rows: old.rows,
            cols: old.cols,
            ..self
        }
    }

    /// What is answered to a frame: input is acknowledged, a ping returned.
    pub open spec fn frame_reply(self, f: FrameView) -> Option<FrameView> {
        match f {
            FrameView::Input { offset, data } => match self.shell {
                Some(s) => Some(
                    FrameView::Ack {
                        seq: (s.received + crate::input::fresh_bytes(
                            s.received,
                            offset,
                            data,
                        ).len()) as u64,
                    },
                ),
                None => None,
            },
            FrameView::Ping { stamp } => Some(FrameView::Pong { stamp }),
            _ => None,
        }
    }

    /// What a frame asks of the pty.
    pub open spec fn frame_action(self, f: FrameView) -> PtyActionView {
        match f {
            FrameView::Input { offset, data } => match self.shell {
                Some(s) => if self.pty {
                    PtyActionView::Write(crate::input::fresh_bytes(s.received, offset, data))
                } else {
                    PtyActionView::Nothing
                },
                None => PtyActionView::Nothing,
            },
            _ => match control_of(f) {
                Some(ControlView::OpenShell { cols, rows, term, agent }) => if self.pty {
                    PtyActionView::Nothing
                } else {
                    PtyActionView::Spawn { cols, rows, term, agent }
                },
                Some(ControlView::Resize { cols, rows }) => if self.pty {
                    PtyActionView::Resize { cols, rows }
                } else {
                    PtyActionView::Nothing
                },
                _ => PtyActionView::Nothing,
            },
        }
    }

    /// The state after a frame.
    pub open spec fn after_frame(self, f: FrameView) -> ServerSessionView {
        match f {
            FrameView::Input { offset, data } => match self.shell {
                Some(s) => ServerSessionView {
                    shell: Some(
                        ServerShellView {
                            received: s.received + crate::input::fresh_bytes(
                                s.received,
                                offset,
                                data,
                            ).len(),
                            ..s
                        },
                    ),
                    ..self
                },
                None => self,
            },
            FrameView::Ack { seq } => match self.shell {
                Some(s) => ServerSessionView { shell: Some(s.acked(seq)), ..self },
                None => self,
            },
            _ => if crate::client::is_stream_frame(f) {
                ServerSessionView { mux: self.mux.after_frame(f), ..self }
            } else {
                match control_of(f) {
                    Some(ControlView::Resize { cols, rows }) => ServerSessionView {
                        rows,
                        cols,
                        shell: match self.shell {
                            Some(s) => Some(
                                ServerShellView {
                                    screen: s.screen.resized(
                                        crate::grid::at_least_one(rows as int),
                                        crate::grid::at_least_one(cols as int),
                                    ),
                                    ..s
                                },
                            ),
                            None => None,
                        },
                        ..self
                    },
                    Some(ControlView::Bye) => ServerSessionView { left: true, ..self },
                    _ => self,
                }
            },
        }
    }

    /// The state after a shell was started.
    pub open spec fn spawned(self, rows: u16, cols: u16) -> ServerSessionView {
        ServerSessionView {
            rows,
            cols,
            shell: Some(ServerShellView::fresh(rows as usize, cols as usize)),
            pty: true,
            ..self
        }
    }

    /// The state after the shell put out bytes.
    pub open spec fn fed(self, bytes: Seq<u8>) -> ServerSessionView {
        match self.shell {
            Some(s) => ServerSessionView {
                shell: Some(
                    ServerShellView {
                        screen: s.screen.perform_all(crate::terminal::recognised(s.fed, bytes)),
                        fed: s.fed.push(bytes),
                        ..s
                    },
                ),
                ..self
            },
            None => self,
        }
    }

    /// What the terminal answers the shell.
    pub open spec fn answer(self, bytes: Seq<u8>) -> Seq<u8> {
        match self.shell {
            Some(s) => crate::terminal::answers(
                s.screen,
                crate::terminal::recognised(s.fed, bytes),
            ),
            None => Seq::empty(),
        }
    }

    /// The client has been silent for too long.
    pub open spec fn abandoned(self) -> bool {
        self.idle_ticks >= IDLE_REAP_TICKS && self.exit_status is None
    }

    /// A tick later.
    pub open spec fn aged(self) -> ServerSessionView {
        ServerSessionView {
            idle_ticks: if self.idle_ticks == u32::MAX {
                u32::MAX
            } else {
                (self.idle_ticks + 1) as u32
            },
            ..self
        }
    }

    /// One frame in a packet to the client.
    pub open spec fn sent(self, f: FrameView) -> Datagrams {
        match (self.session.peer, self.session.packet(seq![f])) {
            (Some(addr), Ok(p)) => seq![(addr, p)],
            _ => Seq::empty(),
        }
    }

    /// The state after that.
    pub open spec fn after_sent(self) -> ServerSessionView {
        if self.session.peer is Some {
            ServerSessionView { session: self.session.after_packet(), ..self }
        } else {
            self
        }
    }

    /// The server's version, as it is sent once.
    pub open spec fn version_sent(self) -> Datagrams {
        if self.announced {
            Seq::empty()
        } else {
            self.sent(
                crate::requests::control_frame(ControlView::ServerVersion(crate::ssh::VERSION@)),
            )
        }
    }

    /// The state after that.
    pub open spec fn after_version(self) -> ServerSessionView {
        if self.announced || self.session.peer is None {
            self
        } else {
            ServerSessionView { announced: true, ..self.after_sent() }
        }
    }

    /// The screen update that the client is behind.
    pub open spec fn diff(self) -> Option<FrameView> {
        match self.shell {
            Some(s) => if self.session.peer is Some {
                s.recorded().diff_frame()
            } else {
                None
            },
            None => None,
        }
    }

    /// The state after the screen was recorded for sending.
    pub open spec fn recorded(self) -> ServerSessionView {
        match self.shell {
            Some(s) => if self.session.peer is Some {
                ServerSessionView { shell: Some(s.recorded().diff_sent()), ..self }
            } else {
                self
            },
            None => self,
        }
    }

    /// The screen update as it is sent.
    pub open spec fn diff_sent(self) -> Datagrams {
        match self.diff() {
            Some(f) => self.recorded().sent(f),
            None => Seq::empty(),
        }
    }

    /// The state after that.
    pub open spec fn after_diff(self) -> ServerSessionView {
        match self.diff() {
            Some(_) => self.recorded().after_sent(),
            None => self.recorded(),
        }
    }

    /// Frames in packets to the client.
    pub open spec fn all_sent(self, frames: Seq<FrameView>) -> Datagrams {
        match (self.session.peer, self.session.sealed(frames, MAX_DATAGRAM_PLAINTEXT as int)) {
            (Some(addr), Ok(ps)) => Seq::new(ps.len(), |i: int| (addr, ps[i])),
            _ => Seq::empty(),
        }
    }

    /// The state after that.
    pub open spec fn after_all_sent(self, frames: Seq<FrameView>) -> ServerSessionView {
        if frames.len() > 0 && self.session.peer is Some {
            ServerSessionView {
                session: self.session.after_frames(frames, MAX_DATAGRAM_PLAINTEXT as int),
                ..self
            }
        } else {
            self
        }
    }

    /// What the streams have to send, as it is sent.
    pub open spec fn streams_sent(self) -> Datagrams {
        self.all_sent(self.mux.round_frames())
    }

    /// The state after that.
    pub open spec fn after_streams(self) -> ServerSessionView {
        (ServerSessionView {
            mux: MuxView { events: Seq::empty(), ..self.mux.after_round() },
            ..self
        }).after_all_sent(self.mux.round_frames())
    }

    /// The state after the pty was asked whether the shell has ended.
    pub open spec fn exit_noted(self, exit: Option<i32>) -> ServerSessionView {
        if self.exit_status is None && self.pty && exit is Some {
            ServerSessionView { exit_status: exit, pty: false, ..self }
        } else {
            self
        }
    }

    /// The exit notice, as it is sent while the session lasts.
    pub open spec fn exit_sent(self) -> Datagrams {
        match self.exit_status {
            Some(status) => self.sent(
                crate::requests::control_frame(ControlView::Exit { status }),
            ),
            None => Seq::empty(),
        }
    }

    /// The state after that.
    pub open spec fn after_exit(self) -> ServerSessionView {
        match self.exit_status {
            Some(_) => ServerSessionView {
                exit_ticks: (self.exit_ticks + 1) as u32,
                ..self.after_sent()
            },
            None => self,
        }
    }

    /// What a tick does to a session.
    pub open spec fn ticked(self, exit: Option<i32>) -> Ticked {
        let a = self.aged();
        if a.abandoned() || a.left {
            Ticked {
                after: a,
                out: Seq::empty(),
                events: Seq::empty(),
                finished: true,
                kill: a.pty,
            }
        } else {
            let v = a.after_version();
            let b = v.after_diff();
            let c = b.after_streams();
            let d = c.exit_noted(exit);
            let e = d.after_exit();
            Ticked {
                after: e,
                out: a.version_sent() + v.diff_sent() + b.streams_sent() + d.exit_sent(),
                events: b.mux.events,
                finished: e.exit_status is Some && e.exit_ticks >= EXIT_RETRANSMIT_TICKS,
                kill: false,
            }
        }
    }
}

/// What a tick does to a session.
pub struct Ticked {
    pub after: ServerSessionView,
    /// The datagrams sent.
    pub out: Datagrams,
    /// The stream events.
    pub events: Seq<EventView>,
    /// The session is over.
    pub finished: bool,
    /// The pty is to be killed.
    pub kill: bool,
}

/// A session.
pub struct ServerSession {
    session: Session,
    shell: Option<ServerShell>,
    pty: bool,
    rows: u16,
    cols: u16,
    client_key: Vec<u8>,
    idle_ticks: u32,
    exit_status: Option<i32>,
    exit_ticks: u32,
    announced: bool,
    left: bool,
    mux: StreamMux,
}

impl View for ServerSession {
    type V = ServerSessionView;

    closed spec fn view(&self) -> ServerSessionView {
        ServerSessionView {
            session: self.session@,
            shell: match self.shell {
                Some(s) => Some(s@),
                None => None,
            },
            pty: self.pty,
            rows: self.rows,
            cols: self.cols,
            client_key: self.client_key@,
            idle_ticks: self.idle_ticks,
            exit_status: self.exit_status,
            exit_ticks: self.exit_ticks,
            announced: self.announced,
            left: self.left,
            mux: self.mux@,
        }
    }
}

/// What a tick left to be done.
pub struct TickOutcome {
    pub events: Vec<StreamEvent>,
    pub finished: bool,
    pub kill: bool,
}

impl ServerSession {
    /// The session can go on: its exit notice was not sent as often as allowed.
    pub closed spec fn wf(&self) -> bool {
        &&& self.sound()
        &&& self@.exit_ticks < EXIT_RETRANSMIT_TICKS
    }

    /// The session is in a state that it can be in.
    pub closed spec fn sound(&self) -> bool {
        &&& self.shell matches Some(s) ==> s.wf()
        &&& self.mux.wf()
        &&& self.exit_status is Some ==> !self.pty
        &&& self.exit_ticks <= EXIT_RETRANSMIT_TICKS
    }

    /// What well-formedness says of the state.
    pub proof fn lemma_view_wf(&self)
        requires
            self.wf(),
        ensures
            self@.wf(),
            self.sound(),
    {
        self.mux.lemma_view_wf();
        if let Some(s) = self.shell {
            s.lemma_view_wf();
        }
    }

    /// A session that can go on.
    pub proof fn lemma_goes_on(&self)
        requires
            self.sound(),
            self@.exit_ticks < EXIT_RETRANSMIT_TICKS,
        ensures
            self.wf(),
    {
    }

    /// A session that has just been established.
    pub fn new(session: Session, client_key: Vec<u8>) -> (r: ServerSession)
        ensures
            r.wf(),
            r@ == ServerSessionView::fresh(session@, client_key@, fresh_mux()),
    {
        ServerSession {
            session,
            shell: None,
            pty: false,
            rows: 24,
            cols: 80,
            client_key,
            idle_ticks: 0,
            exit_status: None,
            exit_ticks: 0,
            announced: false,
            left: false,
            mux: StreamMux::new(false),
        }
    }

    /// Whether a shell of this client runs here.
    pub fn runs_for(&self, client_key: &[u8]) -> (r: bool)
        ensures
            r == (self@.running() && self@.client_key == client_key@),
    {
        if !(self.exit_status.is_none() && !self.left && (self.shell.is_some() || self.pty)) {
            return false;
        }
        if self.client_key.len() != client_key.len() {
            return false;
        }
        let mut i: usize = 0;
        while i < client_key.len()
            invariant
                i <= client_key@.len(),
                self.client_key@.len() == client_key@.len(),
                forall|j: int| 0 <= j < i ==> self.client_key@[j] == client_key@[j],
            decreases client_key@.len() - i,
        {
            if self.client_key[i] != client_key[i] {
                return false;
            }
            i += 1;
        }
        assert(self.client_key@ =~= client_key@);
        true
    }

    /// Go on with the running shell of another session of the same client.
    pub fn take_over(&mut self, old_session: ServerSession)
        requires
            old(self).wf(),
            old_session.wf(),
            old(self)@.exit_status is None,
        ensures
            final(self).wf(),
            final(self)@ == old(self)@.taking_over(old_session@),
    {
        self.shell = match old_session.shell {
            Some(s) => {
                let mut s: ServerShell = s;
                s.rebind_to_new_client();
                Some(s)
            },
            None => None,
        };
        self.pty = old_session.pty;
        self.rows = old_session.rows;
        self.cols = old_session.cols;
    }

    /// Open a packet from `src`; an authentic one proves that the client is
    /// alive.
    pub fn open(&mut self, src: Addr, buf: &[u8]) -> (r: Option<Vec<Frame>>)
        requires
            old(self).wf(),
        ensures
            final(self).wf(),
            match old(self)@.session.opened(buf@) {
                Ok(fs) => {
                    &&& r matches Some(v)
                    &&& crate::wire::frame_views(v@) == fs
                    &&& final(self)@ == (ServerSessionView {
                        session: old(self)@.session.after_open(src, buf@),
                        idle_ticks: 0,
                        ..old(self)@
                    })
                },
                Err(_) => {
                    &&& r is None
                    &&& final(self)@ == (ServerSessionView {
                        session: old(self)@.session.after_open(src, buf@),
                        ..old(self)@
                    })
                },
            },
    {
        match self.session.open(src, buf) {
            Ok(frames) => {
                self.idle_ticks = 0;
                Some(frames)
            },
            Err(_) => None,
        }
    }

    /// Process a frame: what to answer, and what it asks of the pty.
    pub fn handle_frame(&mut self, frame: Frame) -> (r: (Option<Frame>, PtyAction))
        requires
            old(self).wf(),
        ensures
            final(self).wf(),
            final(self)@ == old(self)@.after_frame(frame@),
            match old(self)@.frame_reply(frame@) {
                Some(f) => r.0 matches Some(x) && x@ == f,
                None => r.0 is None,
            },
            r.1@ == old(self)@.frame_action(frame@),
    {
        match frame {
            Frame::Input { offset, data } => self.on_input(offset, data),
            Frame::Ack { seq } => {
                self.on_ack(seq);
                (None, PtyAction::Nothing)
            },
            Frame::Ping { stamp } => (Some(Frame::Pong { stamp }), PtyAction::Nothing),
            Frame::Control { data } => {
                let action: PtyAction = self.on_control(data);
                (None, action)
            },
            Frame::StreamOpen { id, kind, meta } => {
                self.mux.on_frame(Frame::StreamOpen { id, kind, meta });
                (None, PtyAction::Nothing)
            },
            Frame::StreamData { id, offset, data, fin } => {
                self.mux.on_frame(Frame::StreamData { id, offset, data, fin });
                (None, PtyAction::Nothing)
            },
            Frame::StreamAck { id, ack, window } => {
                self.mux.on_frame(Frame::StreamAck { id, ack, window });
                (None, PtyAction::Nothing)
            },
            Frame::StreamClose { id, status } => {
                self.mux.on_frame(Frame::StreamClose { id, status });
                (None, PtyAction::Nothing)
            },
            Frame::StreamReset { id } => {
                self.mux.on_frame(Frame::StreamReset { id });
                (None, PtyAction::Nothing)
            },
            _ => (None, PtyAction::Nothing),
        }
    }

    fn on_input(&mut self, offset: u64, data: Vec<u8>) -> (r: (Option<Frame>, PtyAction))
        requires
            old(self).wf(),
        ensures
            final(self).wf(),
            ({
                let f = FrameView::Input { offset, data: data@ };
                &&& final(self)@ == old(self)@.after_frame(f)
                &&& match old(self)@.frame_reply(f) {
                    Some(f) => r.0 matches Some(x) && x@ == f,
                    None => r.0 is None,
                }
                &&& r.1@ == old(self)@.frame_action(f)
            }),
    {
        match self.shell.take() {
            Some(s) => {
                let mut s: ServerShell = s;
                let (fresh, ack) = s.ingest_input(offset, data.as_slice());
                self.shell = Some(s);
                let action: PtyAction = if self.pty {
                    PtyAction::Write(fresh)
                } else {
                    PtyAction::Nothing
                };
                (Some(ack), action)
            },
            None => (None, PtyAction::Nothing),
        }
    }

    fn on_ack(&mut self, seq: u64)
        requires
            old(self).wf(),
        ensures
            final(self).wf(),
            final(self)@ == old(self)@.after_frame((FrameView::Ack { seq })),
    {
        match self.shell.take() {
            Some(s) => {
                let mut s: ServerShell = s;
                s.on_state_ack(seq);
                self.shell = Some(s);
            },
            None => {},
        }
    }

    fn on_control(&mut self, data: Vec<u8>) -> (r: PtyAction)
        requires
            old(self).wf(),
        ensures
            final(self).wf(),
            final(self)@ == old(self)@.after_frame((FrameView::Control { data: data@ })),
            r@ == old(self)@.frame_action((FrameView::Control { data: data@ })),
    {
        match ControlMsg::decode(data.as_slice()) {
            Ok(ControlMsg::OpenShell { cols, rows, term, agent }) => {
                if self.pty {
                    PtyAction::Nothing  // already open
                } else {
                    PtyAction::Spawn { cols, rows, term, agent }
                }
            },
            Ok(ControlMsg::Resize { cols, rows }) => {
                self.rows = rows;
                self.cols = cols;
                match self.shell.take() {
                    Some(s) => {
                        let mut s: ServerShell = s;
                        proof {
                            crate::shell::lemma_size_fits(rows, cols);
                        }
                        s.resize(rows as usize, cols as usize);
                        self.shell = Some(s);
                    },
                    None => {},
                }
                if self.pty {
                    PtyAction::Resize { cols, rows }
                } else {
                    PtyAction::Nothing
                }
            },
            Ok(ControlMsg::Bye) => {
                self.left = true;
                PtyAction::Nothing
            },
            _ => PtyAction::Nothing,
        }
    }

    /// A shell was started for the session.
    pub fn on_spawned(&mut self, rows: u16, cols: u16)
        requires
            old(self).wf(),
            old(self)@.exit_status is None,
        ensures
            final(self).wf(),
            final(self)@ == old(self)@.spawned(rows, cols),
    {
        proof {
            crate::shell::lemma_size_fits(rows, cols);
        }
        self.rows = rows;
        self.cols = cols;
        self.shell = Some(ServerShell::new(rows as usize, cols as usize));
        self.pty = true;
    }

    /// The shell put out bytes. Returns what the terminal answers it.
    pub fn feed_output(&mut self, bytes: &[u8]) -> (reply: Vec<u8>)
        requires
            old(self).wf(),
        ensures
            final(self).wf(),
            final(self)@ == old(self)@.fed(bytes@),
            reply@ == old(self)@.answer(bytes@),
    {
        match self.shell.take() {
            Some(s) => {
                let mut s: ServerShell = s;
                let reply: Vec<u8> = s.feed_output(bytes);
                self.shell = Some(s);
                reply
            },
            None => Vec::new(),
        }
    }

    /// Send frames to the client, if it is known where it is.
    pub fn send(&mut self, frames: &[Frame], out: &mut Vec<(Addr, Vec<u8>)>)
        requires
            old(self).sound(),
            frames@.len() > 0,
        ensures
            final(self).sound(),
            final(self)@ == old(self)@.after_all_sent(crate::wire::frame_views(frames@)),
            datagrams(final(out)@) == datagrams(old(out)@) + old(self)@.all_sent(
                crate::wire::frame_views(frames@),
            ),
    {
        let ghost before = out@;
        let ghost fs = crate::wire::frame_views(frames@);
        assert(datagrams(before) + Seq::<(Addr, Seq<u8>)>::empty() =~= datagrams(before));
        if let Some(addr) = self.session.peer_addr() {
            if let Ok(pkts) = self.session.seal_many(frames, MAX_DATAGRAM_PLAINTEXT) {
                let mut pkts: Vec<Vec<u8>> = pkts;
                let ghost ps = crate::transport::packets_view(pkts@);
                let ghost all = Seq::new(ps.len(), |i: int| (addr, ps[i]));
                assert(ps.skip(0) =~= ps);
                assert(datagrams(before) + all.take(0) =~= datagrams(before));
                while pkts.len() > 0
                    invariant
                        pkts@.len() <= ps.len(),
                        all == Seq::new(ps.len(), |i: int| (addr, ps[i])),
                        crate::transport::packets_view(pkts@) == ps.skip(ps.len() - pkts@.len()),
                        datagrams(out@) == datagrams(before) + all.take(ps.len() - pkts@.len()),
                    decreases pkts@.len(),
                {
                    let ghost i = ps.len() - pkts@.len();
                    let ghost rest = crate::transport::packets_view(pkts@);
                    let ghost sofar = out@;
                    let p: Vec<u8> = pkts.remove(0);
                    assert(p@ == rest[0]);
                    assert(crate::transport::packets_view(pkts@) =~= rest.skip(1));
                    assert(rest.skip(1) =~= ps.skip(i + 1));
                    out.push((addr, p));
                    assert(datagrams(out@) =~= datagrams(sofar).push(all[i]));
                    assert(datagrams(before) + all.take(i + 1) =~= (datagrams(before) + all.take(
                        i,
                    )).push(all[i]));
                }
                assert(all.take(ps.len() as int) =~= all);
            }
        }
    }

    fn send_one(&mut self, frame: Frame, out: &mut Vec<(Addr, Vec<u8>)>)
        requires
            old(self).sound(),
        ensures
            final(self).sound(),
            final(self)@ == old(self)@.after_sent(),
            datagrams(final(out)@) == datagrams(old(out)@) + old(self)@.sent(frame@),
    {
        let ghost before = out@;
        let ghost f = frame@;
        assert(datagrams(before) + Seq::<(Addr, Seq<u8>)>::empty() =~= datagrams(before));
        if let Some(addr) = self.session.peer_addr() {
            let frames: [Frame; 1] = [frame];
            assert(crate::wire::frame_views(frames@) =~= seq![f]);
            if let Ok(p) = self.session.seal(&frames) {
                let ghost d = (addr, p@);
                out.push((addr, p));
                assert(datagrams(out@) =~= datagrams(before) + seq![d]);
            }
        }
    }

    fn send_version(&mut self, out: &mut Vec<(Addr, Vec<u8>)>)
        requires
            old(self).sound(),
        ensures
            final(self).sound(),
            final(self)@ == old(self)@.after_version(),
            datagrams(final(out)@) == datagrams(old(out)@) + old(self)@.version_sent(),
    {
        let ghost before = out@;
        assert(datagrams(before) + Seq::<(Addr, Seq<u8>)>::empty() =~= datagrams(before));
        if !self.announced && self.session.peer_addr().is_some() {
            let m = ControlMsg::ServerVersion(crate::ssh::VERSION.to_owned());
            self.send_one(Frame::Control { data: m.encode() }, out);
            self.announced = true;
        }
    }

    fn send_diff(&mut self, out: &mut Vec<(Addr, Vec<u8>)>)
        requires
            old(self).sound(),
        ensures
            final(self).sound(),
            final(self)@ == old(self)@.after_diff(),
            datagrams(final(out)@) == datagrams(old(out)@) + old(self)@.diff_sent(),
    {
        let ghost before = out@;
        assert(datagrams(before) + Seq::<(Addr, Seq<u8>)>::empty() =~= datagrams(before));
        if self.session.peer_addr().is_none() {
            return ;
        }
        let diff: Option<Frame> = match self.shell.take() {
            Some(s) => {
                let mut s: ServerShell = s;
                let diff: Option<Frame> = s.poll_diff();
                self.shell = Some(s);
                diff
            },
            None => None,
        };
        if let Some(f) = diff {
            self.send_one(f, out);
        }
    }

    fn send_streams(&mut self, out: &mut Vec<(Addr, Vec<u8>)>) -> (events: Vec<StreamEvent>)
        requires
            old(self).sound(),
        ensures
            final(self).sound(),
            final(self)@ == old(self)@.after_streams(),
            datagrams(final(out)@) == datagrams(old(out)@) + old(self)@.streams_sent(),
            crate::stream::event_views(events@) == old(self)@.mux.events,
    {
        let ghost before = out@;
        let frames: Vec<Frame> = self.mux.poll_transmit();
        let events: Vec<StreamEvent> = self.mux.take_events();
        if frames.len() > 0 {
            self.send(frames.as_slice(), out);
        } else {
            proof {
                let fs = crate::wire::frame_views(frames@);
                assert(fs =~= Seq::<FrameView>::empty());
                let batches = crate::transport::batches_of(fs, MAX_DATAGRAM_PLAINTEXT as int);
                assert(batches.len() == 0);
                assert(self@.all_sent(fs) =~= Seq::<(Addr, Seq<u8>)>::empty());
                assert(datagrams(before) + Seq::<(Addr, Seq<u8>)>::empty() =~= datagrams(before));
            }
        }
        events
    }

    fn send_exit(&mut self, out: &mut Vec<(Addr, Vec<u8>)>)
        requires
            old(self).wf(),
        ensures
            final(self).sound(),
            final(self)@ == old(self)@.after_exit(),
            datagrams(final(out)@) == datagrams(old(out)@) + old(self)@.exit_sent(),
    {
        let ghost before = out@;
        assert(datagrams(before) + Seq::<(Addr, Seq<u8>)>::empty() =~= datagrams(before));
        if let Some(status) = self.exit_status {
            let m = ControlMsg::Exit { status };
            self.send_one(Frame::Control { data: m.encode() }, out);
            self.exit_ticks = self.exit_ticks + 1;
        }
    }

    /// A tick: tell the client the server's version if that was not done, send
    /// the screen update that the client is behind, what the streams have to
    /// send, and the exit notice if the shell has ended. `exit` is how the shell
    /// ended, if the pty says that it has. The session is over when the client
    /// has said that it is done or was silent for too long, or has been told of
    /// the exit often enough.
    #[verifier::rlimit(40)]
    pub fn tick(&mut self, exit: Option<i32>, out: &mut Vec<(Addr, Vec<u8>)>) -> (r: TickOutcome)
        requires
            old(self).wf(),
        ensures
            final(self).sound(),
            ({
                let t = old(self)@.ticked(exit);
                &&& final(self)@ == t.after
                &&& datagrams(final(out)@) == datagrams(old(out)@) + t.out
                &&& crate::stream::event_views(r.events@) == t.events
                &&& r.finished == t.finished
                &&& r.kill == t.kill
                &&& !r.finished ==> final(self).wf()
            }),
    {
        let ghost before = out@;
        if self.idle_ticks < u32::MAX {
            self.idle_ticks = self.idle_ticks + 1;
        }
        let ghost a = self@;
        if self.left || (self.idle_ticks >= IDLE_REAP_TICKS && self.exit_status.is_none()) {
            let none: Vec<StreamEvent> = Vec::new();
            assert(crate::stream::event_views(none@) =~= Seq::<EventView>::empty());
            assert(datagrams(before) + Seq::<(Addr, Seq<u8>)>::empty() =~= datagrams(before));
            return TickOutcome { events: none, finished: true, kill: self.pty };
        }
        self.send_version(out);
        let ghost v = self@;
        self.send_diff(out);
        let ghost b = self@;
        let events: Vec<StreamEvent> = self.send_streams(out);
        let ghost c = self@;
        if self.exit_status.is_none() && self.pty {
            if let Some(status) = exit {
                self.exit_status = Some(status);
                self.pty = false;
            }
        }
        let ghost d = self@;
        self.send_exit(out);
        let finished: bool = match self.exit_status {
            Some(_) => self.exit_ticks >= EXIT_RETRANSMIT_TICKS,
            None => false,
        };
        proof {
            lemma_sent_in_order(
                datagrams(before),
                a.version_sent(),
                v.diff_sent(),
                b.streams_sent(),
                d.exit_sent(),
            );
        }
        TickOutcome { events, finished, kill: false }
    }

    /// Whether a pty runs.
    pub fn has_pty(&self) -> (r: bool)
        ensures
            r == self@.pty,
    {
        self.pty
    }

    /// Whether the shell has ended.
    pub fn has_exited(&self) -> (r: bool)
        ensures
            r == (self@.exit_status is Some),
    {
        self.exit_status.is_some()
    }

    /// Take the stream events.
    pub fn take_events(&mut self) -> (evs: Vec<StreamEvent>)
        requires
            old(self).wf(),
        ensures
            final(self).wf(),
            crate::stream::event_views(evs@) == old(self)@.mux.events,
            final(self)@ == (ServerSessionView {
                mux: MuxView { events: Seq::empty(), ..old(self)@.mux },
                ..old(self)@
            }),
    {
        self.mux.take_events()
    }

    /// The streams of the session, to read from.
    pub fn mux(&self) -> (r: &StreamMux)
        requires
            self.wf(),
        ensures
            r.wf(),
            r@ == self@.mux,
    {
        &self.mux
    }

    /// Read available contiguous bytes from a stream.
    pub fn stream_read(&mut self, id: u64) -> (out: Vec<u8>)
        requires
            old(self).wf(),
        ensures
            final(self).wf(),
            out@ == old(self)@.mux.readable(id),
            final(self)@ == (ServerSessionView {
                mux: old(self)@.mux.after_read(id),
                ..old(self)@
            }),
    {
        self.mux.read(id)
    }

    /// Queue bytes to send on a stream.
    pub fn stream_write(&mut self, id: u64, data: &[u8])
        requires
            old(self).wf(),
        ensures
            final(self).wf(),
            final(self)@ == (ServerSessionView {
                mux: old(self)@.mux.written(id, data@),
                ..old(self)@
            }),
    {
        self.mux.write(id, data);
    }

    /// Close our send half of a stream.
    pub fn stream_close(&mut self, id: u64)
        requires
            old(self).wf(),
        ensures
            final(self).wf(),
            final(self)@ == (ServerSessionView {
                mux: old(self)@.mux.closed(id, 0),
                ..old(self)@
            }),
    {
        self.mux.close(id, 0);
    }

    /// Close our send half of a stream, with a status.
    pub fn stream_end(&mut self, id: u64, status: i32)
        requires
            old(self).wf(),
        ensures
            final(self).wf(),
            final(self)@ == (ServerSessionView {
                mux: old(self)@.mux.closed(id, status),
                ..old(self)@
            }),
    {
        self.mux.close(id, status);
    }

    /// Open a stream of the kind that commands run on; returns its id.
    pub fn open_errors(&mut self) -> (id: u64)
        requires
            old(self).wf(),
        ensures
            final(self).wf(),
            id == old(self)@.mux.next_local_id,
            final(self)@ == (ServerSessionView {
                mux: old(self)@.mux.after_open(crate::wire::StreamKind::Session, Seq::empty()),
                ..old(self)@
            }),
    {
        let meta: Vec<u8> = Vec::new();
        assert(meta@ =~= Seq::<u8>::empty());
        self.mux.open(crate::wire::StreamKind::Session, meta)
    }

    /// Open a stream to the client's agent; returns its id.
    pub fn open_agent(&mut self) -> (id: u64)
        requires
            old(self).wf(),
        ensures
            final(self).wf(),
            id == old(self)@.mux.next_local_id,
            final(self)@ == (ServerSessionView {
                mux: old(self)@.mux.after_open(crate::wire::StreamKind::Agent, Seq::empty()),
                ..old(self)@
            }),
            crate::forward::agent_asks(crate::forward::announcement(final(self)@.mux, id)) == (
            crate::forward::ActionView::DialAgent { id }),
    {
        let meta: Vec<u8> = Vec::new();
        assert(meta@ =~= Seq::<u8>::empty());
        self.mux.open(crate::wire::StreamKind::Agent, meta)
    }

    /// Abort a stream.
    pub fn stream_reset(&mut self, id: u64)
        requires
            old(self).wf(),
        ensures
            final(self).wf(),
            final(self)@ == (ServerSessionView {
                mux: old(self)@.mux.aborted(id),
                ..old(self)@
            }),
    {
        self.mux.reset(id);
    }

    /// Open a forward stream from the server side; returns the new stream id.
    pub fn open_forward(&mut self, target: &str) -> (id: u64)
        requires
            old(self).wf(),
        ensures
            final(self).wf(),
            id == old(self)@.mux.next_local_id,
            final(self)@ == (ServerSessionView {
                mux: old(self)@.mux.after_open(
                    crate::wire::StreamKind::Forward,
                    vstd::utf8::encode_utf8(target@),
                ),
                ..old(self)@
            }),
            crate::forward::client_asks(crate::forward::announcement(final(self)@.mux, id)) == (
            crate::forward::ActionView::Dial { id, target: target@ }),
    {
        proof {
            crate::forward::law_forward_leads_to_target(
                self@.mux.next_local_id,
                target@,
                Seq::empty(),
                false,
            );
        }
        self.mux.open(
            crate::wire::StreamKind::Forward,
            vstd::slice::slice_to_vec(target.as_bytes()),
        )
    }
}

proof fn lemma_sent_in_order(a: Datagrams, b: Datagrams, c: Datagrams, d: Datagrams, e: Datagrams)
    ensures
        a + b + c + d + e == a + (b + c + d + e),
{
    assert(a + b + c + d + e =~= a + (b + c + d + e));
}

/// The streams of a server session that has just been established: none.
pub open spec fn fresh_mux() -> MuxView {
    MuxView {
        next_local_id: 1,
        streams: Map::empty(),
        order: Seq::empty(),
        events: Seq::empty(),
        now: 0,
    }
}

// ---------------------------------------------------------------------------
// Laws
// ---------------------------------------------------------------------------

/// A session after `n` ticks without a packet from the client.
pub open spec fn after_ticks(s: ServerSessionView, n: nat) -> ServerSessionView
    decreases n,
{
    if n == 0 {
        s
    } else {
        after_ticks(s, (n - 1) as nat).ticked(None).after
    }
}

proof fn lemma_silence(s: ServerSessionView, n: nat)
    requires
        s.exit_status is None,
        s.idle_ticks + n <= u32::MAX,
    ensures
        after_ticks(s, n).exit_status is None,
        after_ticks(s, n).left == s.left,
        after_ticks(s, n).idle_ticks == s.idle_ticks + n,
    decreases n,
{
    if n > 0 {
        lemma_silence(s, (n - 1) as nat);
    }
}

/// A session whose client stays silent is over at the tick that the bound
/// names, and not before: its shell keeps running, and the client can come back
/// until then.
pub proof fn law_silent_session_is_reaped(s: ServerSessionView, n: nat)
    requires
        s.exit_status is None,
        !s.left,
        s.idle_ticks == 0,
        0 < n <= IDLE_REAP_TICKS,
    ensures
        after_ticks(s, (n - 1) as nat).ticked(None).finished == (n == IDLE_REAP_TICKS),
{
    lemma_silence(s, (n - 1) as nat);
}

/// An authentic packet keeps a session alive: the silence is counted anew.
pub proof fn law_packet_keeps_alive(s: ServerSessionView, src: Addr, packet: Seq<u8>, n: nat)
    requires
        s.exit_status is None,
        s.session.opened(packet) is Ok,
        n < IDLE_REAP_TICKS,
    ensures
        ({
            let t = ServerSessionView {
                session: s.session.after_open(src, packet),
                idle_ticks: 0,
                ..s
            };
            !after_ticks(t, n).abandoned()
        }),
{
    let t = ServerSessionView { session: s.session.after_open(src, packet), idle_ticks: 0, ..s };
    lemma_silence(t, n);
}

/// A session whose shell has ended tells the client so at every tick, and is
/// over after as many notices as the bound names.
pub proof fn law_exit_is_told(s: ServerSessionView, exit: Option<i32>)
    requires
        s.exit_status is Some,
        !s.left,
        s.exit_ticks < EXIT_RETRANSMIT_TICKS,
    ensures
        s.ticked(exit).after.exit_status == s.exit_status,
        s.ticked(exit).after.exit_ticks == s.exit_ticks + 1,
        s.ticked(exit).finished == (s.exit_ticks + 1 == EXIT_RETRANSMIT_TICKS),
        !s.ticked(exit).kill,
{
}

/// A client that says it is done ends its session at the next tick: nothing more
/// is sent to it, and its shell is not left running.
pub proof fn law_bye_ends_session(s: ServerSessionView, exit: Option<i32>)
    ensures
        ({
            let t = s.after_frame(crate::requests::control_frame(ControlView::Bye));
            &&& !t.running()
            &&& t.ticked(exit).finished
            &&& t.ticked(exit).kill == s.pty
            &&& t.ticked(exit).out == Seq::<(Addr, Seq<u8>)>::empty()
        }),
{
    crate::control::law_control_roundtrip(ControlView::Bye);
}

/// Once a client has said that it is done, no frame takes that back.
pub proof fn law_bye_is_final(s: ServerSessionView, f: FrameView)
    requires
        s.left,
    ensures
        s.after_frame(f).left,
{
}

/// A session tells its client the server's version once.
pub proof fn law_version_is_told_once(s: ServerSessionView, exit: Option<i32>)
    requires
        s.session.peer is Some,
        !s.left,
        !s.aged().abandoned(),
    ensures
        s.announced ==> s.aged().version_sent() == Seq::<(Addr, Seq<u8>)>::empty(),
        s.ticked(exit).after.announced,
{
}

/// A client that comes back gets the running shell, its screen and its pty, as
/// they were, and a full snapshot to begin with.
pub proof fn law_reattach_keeps_shell(fresh: ServerSessionView, old: ServerSessionView)
    requires
        old.shell is Some,
    ensures
        fresh.taking_over(old).shell matches Some(s) && s.screen == old.shell.unwrap().screen
            && s.fed == old.shell.unwrap().fed && s.force_full,
        fresh.taking_over(old).pty == old.pty,
        fresh.taking_over(old).session == fresh.session,
{
}

} // verus!
