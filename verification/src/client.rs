//! Client runtime: the socket-free [`ClientCore`] consumes raw packets and
//! produces raw packets.

use crate::auth::{KnownHosts, Pins, Tofu};
use crate::control::{ControlMsg, ControlView};
use crate::error::{RuntimeError, RuntimeErrorView};
use crate::grid::Grid;
use crate::handshake::{HandshakeErrorView, Handshaker, HandshakerView};
use crate::noise::Keypair;
use crate::predict::DisplayMode;
use crate::proto::verify_server;
use crate::requests::{Requests, RequestsView};
use crate::shell::{ClientShell, ClientShellView};
use crate::stream::{EventView, MuxView, StreamEvent, StreamMux};
use crate::text::utf8_text;
use crate::transport::{
    parse_packet, random_session_id, Addr, Packet, PacketView, Session, SessionId, SessionView,
    TransportErrorView, MAX_DATAGRAM_PLAINTEXT,
};
use crate::wire::{Frame, FrameView, StreamKind};
use crate::xfer::{XferRequest, XferView};
use vstd::prelude::*;
use vstd::slice::slice_to_vec;

verus! {

/// The terminal type to advertise: the user's own, or a safe modern default
/// when there is none.
pub fn terminal_type(var: Option<String>) -> (r: String)
    ensures
        r@ == match var {
            Some(t) => if t@.len() > 0 {
                t@
            } else {
                "xterm-256color"@
            },
            None => "xterm-256color"@,
        },
{
    match var {
        Some(t) => {
            if t.as_str().unicode_len() > 0 {
                t
            } else {
                "xterm-256color".to_owned()
            }
        },
        None => "xterm-256color".to_owned(),
    }
}

/// The state of a client.
pub struct ClientView {
    /// The handshake, until it is finished and the server's key trusted.
    pub hs: Option<HandshakerView>,
    /// The session, from then on.
    pub session: Option<SessionView>,
    pub shell: ClientShellView,
    /// The pinned server keys.
    pub known: Pins,
    /// The name under which the server's key is pinned.
    pub label: Seq<char>,
    /// Where the server is.
    pub server: Addr,
    /// What is requested of the server.
    pub requests: RequestsView,
    /// The server's static public key, once it is trusted.
    pub server_static: Option<Seq<u8>>,
    /// The exit status of the shell, once the server has told it.
    pub exited: Option<i32>,
    /// The server's version, once the server has told it.
    pub server_version: Option<Seq<char>>,
    /// A screen update came in since frames were last sent.
    pub need_ack: bool,
    pub mux: MuxView,
    /// Stream events not yet taken.
    pub events: Seq<EventView>,
    /// The server's key was pinned.
    pub dirty: bool,
}

/// The frame belongs to a stream.
pub open spec fn is_stream_frame(f: FrameView) -> bool {
    f is StreamOpen || f is StreamData || f is StreamAck || f is StreamClose || f is StreamReset
}

impl ClientView {
    /// A state that a client can be in: it is in a handshake or has a session.
    pub open spec fn wf(self) -> bool {
        &&& self.shell.wf()
        &&& self.requests.wf()
        &&& self.mux.wf()
        &&& self.hs matches Some(h) ==> h.wf() && h.noise.initiator
        &&& self.hs is Some <==> self.session is None
    }

    /// The frames that are sent now: requests, input and the screen
    /// acknowledgement, and what the streams have to send.
    pub open spec fn frames(self) -> Seq<FrameView> {
        self.requests.frames() + self.shell.frames() + self.mux.round_frames()
    }

    /// The packets that are sent now.
    pub open spec fn outgoing(self) -> Result<Seq<Seq<u8>>, TransportErrorView> {
        match self.session {
            None => Ok(Seq::empty()),
            Some(s) => s.sealed(self.frames(), MAX_DATAGRAM_PLAINTEXT as int),
        }
    }

    /// The state after that.
    pub open spec fn after_outgoing(self) -> ClientView {
        match self.session {
            None => self,
            Some(s) => ClientView {
                session: Some(s.after_frames(self.frames(), MAX_DATAGRAM_PLAINTEXT as int)),
                requests: self.requests.after(),
                mux: MuxView { events: Seq::empty(), ..self.mux.after_round() },
                events: self.events + self.mux.events,
                need_ack: self.need_ack && self.outgoing() is Err,
                ..self
            },
        }
    }

    /// The state after one frame from the server.
    pub open spec fn after_frame(self, f: FrameView) -> ClientView {
        match f {
            FrameView::StateDiff { seq, base, data } => ClientView {
                shell: self.shell.after_diff(seq, base, data),
                need_ack: true,
                ..self
            },
            FrameView::Ack { seq } => ClientView { shell: self.shell.input_acked(seq), ..self },
            FrameView::Control { data } => match crate::control::control_at(data) {
                Ok(ControlView::Exit { status }) => ClientView { exited: Some(status), ..self },
                Ok(ControlView::ServerVersion(version)) => ClientView {
                    server_version: Some(version),
                    ..self
                },
                _ => self,
            },
            _ => if is_stream_frame(f) {
                ClientView { mux: self.mux.after_frame(f), ..self }
            } else {
                self
            },
        }
    }

    /// The state after the first `n` of the frames from the server.
    pub open spec fn after_frames(self, frames: Seq<FrameView>, n: int) -> ClientView
        decreases n,
    {
        if n <= 0 {
            self
        } else {
            self.after_frames(frames, n - 1).after_frame(frames[n - 1])
        }
    }

    /// The state after all frames of a packet: events are kept, and once the
    /// server is sending screens the shell is open.
    pub open spec fn settled(self) -> ClientView {
        ClientView {
            mux: MuxView { events: Seq::empty(), ..self.mux },
            events: self.events + self.mux.events,
            requests: RequestsView {
                open_shell: self.requests.open_shell && self.shell.current_seq == 0,
                ..self.requests
            },
            ..self
        }
    }

    /// The state after a transport packet. One that fails to authenticate is
    /// dropped, never fatal to the session.
    pub open spec fn after_packet(self, packet: Seq<u8>) -> ClientView {
        match self.session {
            None => self,
            Some(s) => {
                let v = ClientView { session: Some(s.after_open(self.server, packet)), ..self };
                match s.opened(packet) {
                    Err(_) => v,
                    Ok(frames) => v.after_frames(frames, frames.len() as int).settled(),
                }
            },
        }
    }

    /// The state after the handshake finished as `h`, if the server's key is
    /// trusted: the session is established, and a shell is requested.
    pub open spec fn joined(self, h: HandshakerView) -> ClientView {
        let key = h.noise.remote.unwrap();
        ClientView {
            hs: None,
            session: Some(crate::handshake::session_of(h, Some(self.server))),
            known: crate::auth::remembered(self.known, self.label, key),
            dirty: self.dirty || self.trust(h) == Tofu::New,
            server_static: Some(key),
            server_version: match crate::handshake::version_in(h.noise.exchanged[1].1) {
                Some(v) => Some(v),
                None => self.server_version,
            },
            requests: RequestsView {
                open_shell: self.requests.want_shell && self.requests.open_shell_ticks
                    < crate::requests::OPEN_SHELL_MAX_TICKS,
                ..self.requests
            },
            ..self
        }
    }

    /// Whether the server's key is the pinned one.
    pub open spec fn trust(self, h: HandshakerView) -> Tofu {
        crate::auth::trusted(self.known, self.label, h.noise.remote.unwrap())
    }
}

/// `h` is how the handshake `before` ends.
pub open spec fn ends(before: HandshakerView, h: HandshakerView, body: Seq<u8>) -> bool {
    &&& h.wf()
    &&& h.finished
    &&& h.id == before.id
    &&& h.noise.initiator == before.noise.initiator
    &&& h.noise.private == before.noise.private
    &&& crate::handshake::replied(before.noise, h.noise, body)
}

/// A client that has begun a connection under a session id, with its first packet.
pub open spec fn begun(
    c: ClientView,
    sid: Seq<u8>,
    private: Seq<u8>,
    known: Pins,
    label: Seq<char>,
    server_addr: Addr,
    rows: u16,
    cols: u16,
    prediction: DisplayMode,
    term: Seq<char>,
    packet: Seq<u8>,
) -> bool {
    &&& c.hs matches Some(h)
    &&& h.id == sid
    &&& crate::handshake::opening(h, private, packet)
    &&& c.session is None
    &&& c.shell == ClientShellView {
        predictor: crate::predict::PredictView {
            mode: prediction,
            ..ClientShellView::fresh(rows as usize, cols as usize).predictor
        },
        ..ClientShellView::fresh(rows as usize, cols as usize)
    }
    &&& c.known == known
    &&& c.label == label
    &&& c.server == server_addr
    &&& c.requests == (RequestsView {
        rows,
        cols,
        term: term,
        want_shell: true,
        want_agent: false,
        open_shell: false,
        open_shell_ticks: 0,
        forwards: Seq::empty(),
        forward_ticks: 0,
        pending: Seq::empty(),
    })
    &&& c.server_static is None
    &&& c.exited is None
    &&& c.server_version is None
    &&& !c.need_ack
    &&& c.mux == (MuxView {
        next_local_id: 0,
        streams: Map::empty(),
        order: Seq::empty(),
        events: Seq::empty(),
        now: 0,
    })
    &&& c.events == Seq::<EventView>::empty()
    &&& !c.dirty
}

/// Socket-free client logic: consumes raw packets, produces raw packets.
pub struct ClientCore {
    hs: Option<Handshaker>,
    session: Option<Session>,
    shell: ClientShell,
    known: KnownHosts,
    host_label: String,
    server_addr: Addr,
    requests: Requests,
    server_static: Option<Vec<u8>>,
    exited: Option<i32>,
    server_version: Option<String>,
    need_ack: bool,
    mux: StreamMux,
    events: Vec<StreamEvent>,
    known_hosts_dirty: bool,
}

impl View for ClientCore {
    type V = ClientView;

    closed spec fn view(&self) -> ClientView {
        ClientView {
            hs: match self.hs {
                Some(h) => Some(h@),
                None => None,
            },
            session: match self.session {
                Some(s) => Some(s@),
                None => None,
            },
            shell: self.shell@,
            known: self.known@,
            label: self.host_label@,
            server: self.server_addr,
            requests: self.requests@,
            server_static: match self.server_static {
                Some(k) => Some(k@),
                None => None,
            },
            exited: self.exited,
            server_version: match self.server_version {
                Some(v) => Some(v@),
                None => None,
            },
            need_ack: self.need_ack,
            mux: self.mux@,
            events: crate::stream::event_views(self.events@),
            dirty: self.known_hosts_dirty,
        }
    }
}

impl ClientCore {
    /// The client is in a state that it can be in.
    pub closed spec fn wf(&self) -> bool {
        &&& self@.wf()
        &&& self.shell.wf()
        &&& self.known.wf()
        &&& self.mux.wf()
    }

    /// A handshake message body is accepted as the next one.
    pub closed spec fn accepts(&self, body: Seq<u8>) -> bool {
        self.hs matches Some(h) && h.accepts(body)
    }

    /// If the body is what the other side of the handshake sent after the two had
    /// exchanged the same messages, it is accepted.
    pub open spec fn accepts_what_it_awaits(&self, body: Seq<u8>) -> bool {
        self@.hs matches Some(h) ==> forall|other: Handshaker, carries: Seq<u8>|
            #[trigger]
            crate::noise::awaits(h.noise, other@.noise, body, carries) ==> self.accepts(body)
    }

    /// What well-formedness says of the state.
    pub proof fn lemma_view_wf(&self)
        requires
            self.wf(),
        ensures
            self@.wf(),
    {
    }

    /// Begin a connection with a session id. Returns the core and the first
    /// handshake packet.
    pub fn with_id(
        sid: SessionId,
        keypair: &Keypair,
        known: KnownHosts,
        host_label: String,
        server_addr: Addr,
        rows: u16,
        cols: u16,
        prediction: DisplayMode,
        term: String,
    ) -> (r: Result<(ClientCore, Vec<u8>), RuntimeError>)
        requires
            keypair.private@.len() <= crate::noise::KEY_LEN,
            known.wf(),
        ensures
            match r {
                Ok((c, packet)) => {
                    &&& c.wf()
                    &&& begun(
                        c@,
                        sid@,
                        keypair.private@,
                        known@,
                        host_label@,
                        server_addr,
                        rows,
                        cols,
                        prediction,
                        term@,
                        packet@,
                    )
                },
                Err(e) => e@ matches RuntimeErrorView::HandshakeDriver(d)
                    && d matches HandshakeErrorView::Noise(n) && n is Snow,
            },
    {
        match Handshaker::client(keypair.private.as_slice(), sid) {
            Ok((hs, first)) => Ok(
                ClientCore::from_begun(
                    hs,
                    first,
                    known,
                    host_label,
                    server_addr,
                    rows,
                    cols,
                    prediction,
                    term,
                ),
            ),
            Err(e) => Err(RuntimeError::HandshakeDriver(e)),
        }
    }

    /// The core of a connection whose handshake has begun, with the packet that
    /// carries its first message.
    pub fn from_begun(
        hs: Handshaker,
        first: Vec<u8>,
        known: KnownHosts,
        host_label: String,
        server_addr: Addr,
        rows: u16,
        cols: u16,
        prediction: DisplayMode,
        term: String,
    ) -> (r: (ClientCore, Vec<u8>))
        requires
            crate::handshake::opening(hs@, hs@.noise.private, first@),
            known.wf(),
        ensures
            r.0.wf(),
            r.0@.hs == Some(hs@),
            begun(
                r.0@,
                hs@.id,
                hs@.noise.private,
                known@,
                host_label@,
                server_addr,
                rows,
                cols,
                prediction,
                term@,
                r.1@,
            ),
            r.1@ == first@,
    {
        proof {
            crate::shell::lemma_size_fits(rows, cols);
        }
        let shell: ClientShell = ClientShell::new(rows as usize, cols as usize).with_prediction(
            prediction,
        );
        let core = ClientCore {
            hs: Some(hs),
            session: None,
            shell,
            known,
            host_label,
            server_addr,
            requests: Requests::new(rows, cols, term),
            server_static: None,
            exited: None,
            server_version: None,
            need_ack: false,
            mux: StreamMux::new(true),
            events: Vec::new(),
            known_hosts_dirty: false,
        };
        proof {
            core.mux.lemma_view_wf();
            assert(core@.events =~= Seq::<EventView>::empty());
        }
        (core, first)
    }

    /// Begin a connection under a session id drawn at random.
    pub fn new(
        keypair: &Keypair,
        known: KnownHosts,
        host_label: String,
        server_addr: Addr,
        rows: u16,
        cols: u16,
        prediction: DisplayMode,
        term: String,
    ) -> (r: Result<(ClientCore, Vec<u8>), RuntimeError>)
        requires
            keypair.private@.len() <= crate::noise::KEY_LEN,
            known.wf(),
        ensures
            match r {
                Ok((c, packet)) => {
                    &&& c.wf()
                    &&& c@.hs matches Some(h)
                    &&& begun(
                        c@,
                        h.id,
                        keypair.private@,
                        known@,
                        host_label@,
                        server_addr,
                        rows,
                        cols,
                        prediction,
                        term@,
                        packet@,
                    )
                },
                Err(e) => e@ is NoRandomness || (e@ matches RuntimeErrorView::HandshakeDriver(d)
                    && d matches HandshakeErrorView::Noise(n) && n is Snow),
            },
    {
        match random_session_id() {
            Some(sid) => ClientCore::with_id(
                sid,
                keypair,
                known,
                host_label,
                server_addr,
                rows,
                cols,
                prediction,
                term,
            ),
            None => Err(RuntimeError::NoRandomness),
        }
    }

    /// Whether the session is established.
    pub fn is_established(&self) -> (r: bool)
        ensures
            r == (self@.session is Some),
    {
        self.session.is_some()
    }

    /// Disable the interactive-shell request (for forward-only sessions). Must
    /// be called before the handshake completes.
    pub fn set_want_shell(&mut self, want: bool)
        requires
            old(self).wf(),
        ensures
            final(self).wf(),
            final(self)@ == (ClientView {
                requests: RequestsView { want_shell: want, ..old(self)@.requests },
                ..old(self)@
            }),
    {
        self.requests.set_want_shell(want);
    }

    /// Request SSH agent forwarding (`-A`). Must be set before the shell opens.
    pub fn set_want_agent(&mut self, want: bool)
        requires
            old(self).wf(),
        ensures
            final(self).wf(),
            final(self)@ == (ClientView {
                requests: RequestsView { want_agent: want, ..old(self)@.requests },
                ..old(self)@
            }),
    {
        self.requests.set_want_agent(want);
    }

    /// The exit status of the shell, once it is known.
    pub fn exit_status(&self) -> (r: Option<i32>)
        ensures
            r == self@.exited,
    {
        self.exited
    }

    /// The server's static public key, once it is trusted.
    pub fn server_static(&self) -> (r: Option<&[u8]>)
        ensures
            match self@.server_static {
                Some(k) => r matches Some(s) && s@ == k,
                None => r is None,
            },
    {
        match &self.server_static {
            Some(k) => Some(k.as_slice()),
            None => None,
        }
    }

    /// The pinned keys.
    pub fn known_hosts(&self) -> (r: &KnownHosts)
        requires
            self.wf(),
        ensures
            r.wf(),
            r@ == self@.known,
    {
        &self.known
    }

    /// Whether a key was pinned.
    pub fn known_hosts_dirty(&self) -> (r: bool)
        ensures
            r == self@.dirty,
    {
        self.known_hosts_dirty
    }

    /// Queue locally-typed bytes.
    pub fn type_input(&mut self, bytes: &[u8])
        requires
            old(self).wf(),
        ensures
            final(self).wf(),
            final(self)@ == (ClientView {
                shell: old(self)@.shell.after_typing(bytes@),
                ..old(self)@
            }),
    {
        self.shell.type_input(bytes);
    }

    /// Queue a window resize to inform the server.
    pub fn resize(&mut self, cols: u16, rows: u16)
        requires
            old(self).wf(),
        ensures
            final(self).wf(),
            final(self)@ == (ClientView {
                requests: RequestsView {
                    rows,
                    cols,
                    pending: old(self)@.requests.pending.push(
                        crate::requests::control_frame(ControlView::Resize { cols, rows }),
                    ),
                    ..old(self)@.requests
                },
                ..old(self)@
            }),
            crate::server_session::control_of(final(self)@.requests.pending.last()) == Some(
                ControlView::Resize { cols, rows },
            ),
    {
        proof {
            crate::control::law_control_roundtrip(ControlView::Resize { cols, rows });
        }
        self.requests.resize(cols, rows);
    }

    /// Queue a `Bye` so the server tears the session down promptly (best-effort;
    /// the server's idle reap is the fallback if it's lost). Sent on clean
    /// completion of a one-shot task like a remote command or a file transfer.
    pub fn send_bye(&mut self)
        requires
            old(self).wf(),
        ensures
            final(self).wf(),
            final(self)@ == (ClientView {
                requests: RequestsView {
                    pending: old(self)@.requests.pending.push(
                        crate::requests::control_frame(ControlView::Bye),
                    ),
                    ..old(self)@.requests
                },
                ..old(self)@
            }),
            crate::server_session::control_of(final(self)@.requests.pending.last()) == Some(
                ControlView::Bye,
            ),
    {
        proof {
            crate::control::law_control_roundtrip(ControlView::Bye);
        }
        self.requests.bye();
    }

    /// The server's version, once the server has told it.
    pub fn server_version(&self) -> (r: Option<&str>)
        ensures
            match self@.server_version {
                Some(v) => r matches Some(x) && x@ == v,
                None => r is None,
            },
    {
        match &self.server_version {
            Some(v) => Some(v.as_str()),
            None => None,
        }
    }

    /// The authoritative screen.
    pub fn screen(&self) -> (r: &Grid)
        ensures
            r@ == self@.shell.grid,
    {
        self.shell.screen()
    }

    /// The screen as the user should see it (predictions painted on).
    pub fn overlay(&self) -> (r: Grid)
        requires
            self.wf(),
        ensures
            r.wf(),
            r@ == self@.shell.predictor.overlay(),
    {
        self.shell.overlay()
    }

    /// Handle an inbound datagram; returns datagrams to send.
    pub fn handle_packet(&mut self, buf: &[u8]) -> (r: Result<Vec<Vec<u8>>, RuntimeError>)
        requires
            old(self).wf(),
            buf@.len() + 256 <= usize::MAX,
        ensures
            final(self).wf(),
            match crate::transport::packet_of(buf@) {
                Err(e) => {
                    &&& r matches Err(x)
                    &&& x@ == RuntimeErrorView::Transport(e)
                    &&& final(self)@ == old(self)@
                },
                Ok(PacketView::Handshake { body, .. }) => {
                    &&& old(self).accepts_what_it_awaits(body)
                    &&& handshake_step(
                        old(self)@,
                        old(self).accepts(body),
                        body,
                        final(self)@,
                        r,
                    )
                },
                Ok(PacketView::Transport { .. }) => {
                    &&& r matches Ok(out)
                    &&& out@.len() == 0
                    &&& final(self)@ == old(self)@.after_packet(buf@)
                },
            },
    {
        match parse_packet(buf) {
            Err(e) => Err(RuntimeError::Transport(e)),
            Ok(Packet::Handshake { body, .. }) => self.handle_handshake(body),
            Ok(Packet::Transport { .. }) => {
                self.handle_transport(buf);
                Ok(Vec::new())
            },
        }
    }

    #[verifier::rlimit(40)]
    fn handle_handshake(&mut self, body: &[u8]) -> (r: Result<Vec<Vec<u8>>, RuntimeError>)
        requires
            old(self).wf(),
            body@.len() + 256 <= usize::MAX,
        ensures
            final(self).wf(),
            handshake_step(old(self)@, old(self).accepts(body@), body@, final(self)@, r),
            old(self).accepts_what_it_awaits(body@),
    {
        let ghost v0 = self@;
        let mut hs: Handshaker = match self.hs.take() {
            Some(hs) => hs,
            None => return Err(RuntimeError::Handshake),
        };
        let outcome = match hs.read(body) {
            Ok(o) => o,
            Err(e) => {
                self.hs = Some(hs);
                return Err(RuntimeError::HandshakeDriver(e));
            },
        };
        let ghost h = hs@;
        let mut out: Vec<Vec<u8>> = Vec::new();
        if let Some(reply) = outcome.reply {
            out.push(reply);
        }
        if !outcome.finished {
            self.hs = Some(hs);
            return Ok(out);
        }
        let server_static: Vec<u8> = match hs.remote_static() {
            Some(k) => k,
            None => {
                self.hs = Some(hs);
                return Err(RuntimeError::Handshake);
            },
        };
        proof {
            assert(ends(v0.hs.unwrap(), h, body@));
        }
        // TOFU known-hosts decision.
        match verify_server(
            &mut self.known,
            self.host_label.as_str(),
            server_static.as_slice(),
        ) {
            Tofu::Mismatch => {
                self.hs = Some(hs);
                return Err(RuntimeError::HostKeyMismatch(self.host_label.as_str().to_owned()));
            },
            Tofu::New => {
                self.known_hosts_dirty = true;
            },
            Tofu::Match => {},
        }
        self.server_static = Some(server_static);
        if outcome.payload.len() > 0 {
            if let Some(version) = utf8_text(outcome.payload.as_slice()) {
                self.server_version = Some(version);
            }
        }
        match hs.into_session(Some(self.server_addr)) {
            Ok(s) => {
                self.session = Some(s);
            },
            Err(e) => return Err(RuntimeError::HandshakeDriver(e)),
        }
        // Request a shell with our geometry (unless this is a forward-only
        // session). Retransmitted every tick until the server starts sending
        // screen state (the request could be lost or reordered ahead of the
        // final handshake message).
        self.requests.connected();
        assert(self@ == v0.joined(h));
        let ghost first = out@;
        match self.outgoing() {
            Ok(more) => {
                let mut more: Vec<Vec<u8>> = more;
                let ghost tail = more@;
                out.append(&mut more);
                proof {
                    assert(crate::transport::packets_view(out@).skip(1)
                        =~= crate::transport::packets_view(tail));
                    assert(crate::transport::packets_view(out@)[0] == first[0]@);
                }
                Ok(out)
            },
            Err(e) => Err(e),
        }
    }

    fn handle_transport(&mut self, buf: &[u8])
        requires
            old(self).wf(),
        ensures
            final(self).wf(),
            final(self)@ == old(self)@.after_packet(buf@),
    {
        let ghost v0 = self@;
        let mut session: Session = match self.session.take() {
            Some(s) => s,
            None => return ,
        };
        // A transport packet that fails to authenticate/decrypt — forged, stale,
        // replayed, or arriving out of order while roaming — is dropped, never
        // fatal to the session.
        let opened = session.open(self.server_addr, buf);
        self.session = Some(session);
        match opened {
            Ok(frames) => self.handle_frames(frames),
            Err(_) => {},
        }
    }

    #[verifier::rlimit(40)]
    fn handle_frames(&mut self, frames: Vec<Frame>)
        requires
            old(self).wf(),
        ensures
            final(self).wf(),
            final(self)@ == old(self)@.after_frames(
                crate::wire::frame_views(frames@),
                frames@.len() as int,
            ).settled(),
    {
        let mut frames: Vec<Frame> = frames;
        let ghost v = self@;
        let ghost fs = crate::wire::frame_views(frames@);
        assert(fs.skip(0) =~= fs);
        while frames.len() > 0
            invariant
                frames@.len() <= fs.len(),
                crate::wire::frame_views(frames@) == fs.skip(fs.len() - frames@.len()),
                self.wf(),
                self@ == v.after_frames(fs, fs.len() - frames@.len()),
            decreases frames@.len(),
        {
            let ghost rest = crate::wire::frame_views(frames@);
            let ghost i = fs.len() - frames@.len();
            let frame: Frame = frames.remove(0);
            proof {
                assert(frame@ == rest[0]);
                assert(rest[0] == fs[i]);
                assert(crate::wire::frame_views(frames@) =~= rest.skip(1));
                assert(rest.skip(1) =~= fs.skip(i + 1));
            }
            self.handle_frame(frame);
        }
        self.keep_events();
        // Once the server is sending screen state, the shell is open.
        if self.shell.current_seq() > 0 {
            self.requests.opened();
        }
    }

    fn handle_frame(&mut self, frame: Frame)
        requires
            old(self).wf(),
        ensures
            final(self).wf(),
            final(self)@ == old(self)@.after_frame(frame@),
    {
        match frame {
            Frame::StateDiff { seq, base, data } => {
                self.shell.apply_state_diff(seq, base, data.as_slice());
                // Re-ack on every diff (even stale ones) so a lost ack can't
                // wedge the server into retransmitting an already-applied state.
                self.need_ack = true;
            },
            Frame::Ack { seq } => {
                self.shell.on_input_ack(seq);
            },
            Frame::Control { data } => {
                match ControlMsg::decode(data.as_slice()) {
                    Ok(ControlMsg::Exit { status }) => {
                        self.exited = Some(status);
                    },
                    Ok(ControlMsg::ServerVersion(version)) => {
                        self.server_version = Some(version);
                    },
                    _ => {},
                }
            },
            Frame::StreamOpen { id, kind, meta } => {
                self.mux.on_frame(Frame::StreamOpen { id, kind, meta });
            },
            Frame::StreamData { id, offset, data, fin } => {
                self.mux.on_frame(Frame::StreamData { id, offset, data, fin });
            },
            Frame::StreamAck { id, ack, window } => {
                self.mux.on_frame(Frame::StreamAck { id, ack, window });
            },
            Frame::StreamClose { id, status } => {
                self.mux.on_frame(Frame::StreamClose { id, status });
            },
            Frame::StreamReset { id } => {
                self.mux.on_frame(Frame::StreamReset { id });
            },
            _ => {},  // Pong and others: liveness only
        }
    }

    fn keep_events(&mut self)
        requires
            old(self).wf(),
        ensures
            final(self).wf(),
            final(self)@ == (ClientView {
                mux: MuxView { events: Seq::empty(), ..old(self)@.mux },
                events: old(self)@.events + old(self)@.mux.events,
                ..old(self)@
            }),
    {
        let ghost before = self.events@;
        let mut evs: Vec<StreamEvent> = self.mux.take_events();
        let ghost more = evs@;
        self.events.append(&mut evs);
        assert(crate::stream::event_views(self.events@) =~= crate::stream::event_views(before)
            + crate::stream::event_views(more));
    }

    /// Datagrams to send now: pending control + input + state ack.
    pub fn tick(&mut self) -> (out: Vec<Vec<u8>>)
        requires
            old(self).wf(),
        ensures
            final(self).wf(),
            final(self)@ == old(self)@.after_outgoing(),
            crate::transport::packets_view(out@) == match old(self)@.outgoing() {
                Ok(ps) => ps,
                Err(_) => Seq::empty(),
            },
    {
        match self.outgoing() {
            Ok(out) => out,
            Err(_) => {
                let none: Vec<Vec<u8>> = Vec::new();
                assert(crate::transport::packets_view(none@) =~= Seq::<Seq<u8>>::empty());
                none
            },
        }
    }

    /// Whether there is anything worth sending right now (lets an event-driven
    /// driver avoid waking up just to send a redundant ack).
    pub fn has_outgoing(&self) -> (r: bool)
        requires
            self.wf(),
        ensures
            r == (self@.session is Some && (self@.requests.any() || self@.need_ack
                || self@.shell.acked < self@.shell.typed.len() || self@.mux.order.len() > 0)),
    {
        self.session.is_some() && (self.requests.any() || self.need_ack
            || self.shell.has_pending_input() || self.mux.has_traffic())
    }

    // --- reliable streams (port forwarding) ---

    fn open_stream(&mut self, kind: StreamKind, meta: Vec<u8>) -> (id: u64)
        requires
            old(self).wf(),
        ensures
            final(self).wf(),
            id == old(self)@.mux.next_local_id,
            final(self)@ == (ClientView {
                mux: old(self)@.mux.after_open(kind, meta@),
                ..old(self)@
            }),
    {
        self.mux.open(kind, meta)
    }

    /// Open a forwarded-connection stream toward `target` (e.g. "host:port").
    /// Returns the stream id.
    pub fn open_forward(&mut self, target: &str) -> (id: u64)
        requires
            old(self).wf(),
        ensures
            final(self).wf(),
            id == old(self)@.mux.next_local_id,
            final(self)@ == (ClientView {
                mux: old(self)@.mux.after_open(
                    StreamKind::Forward,
                    vstd::utf8::encode_utf8(target@),
                ),
                ..old(self)@
            }),
            crate::forward::server_asks(
                crate::forward::announcement(final(self)@.mux, id),
                false,
            ) == (crate::forward::ActionView::Dial { id, target: target@ }),
    {
        proof {
            crate::forward::law_forward_leads_to_target(
                self@.mux.next_local_id,
                target@,
                Seq::empty(),
                false,
            );
        }
        self.open_stream(StreamKind::Forward, slice_to_vec(target.as_bytes()))
    }

    /// Open a file-transfer stream carrying `req`. Returns the stream id.
    pub fn open_xfer(&mut self, req: &XferRequest) -> (id: u64)
        requires
            old(self).wf(),
        ensures
            final(self).wf(),
            id == old(self)@.mux.next_local_id,
            final(self)@ == (ClientView {
                mux: old(self)@.mux.after_open(
                    StreamKind::FileTransfer,
                    vstd::utf8::encode_utf8(crate::xfer::request_text(req@)),
                ),
                ..old(self)@
            }),
            crate::xfer::path_of(req@).len() > 0 ==> crate::forward::server_asks(
                crate::forward::announcement(final(self)@.mux, id),
                false,
            ) == match req@ {
                XferView::Put { path, .. } => crate::forward::ActionView::Store { id, path },
                XferView::Get { path } => crate::forward::ActionView::Load { id, path },
            },
    {
        proof {
            if crate::xfer::path_of(req@).len() > 0 {
                crate::xfer::law_request_roundtrip(req@);
            }
        }
        self.open_stream(StreamKind::FileTransfer, req.encode())
    }

    /// Open a stream running `cmd` on the server. Returns the stream id.
    pub fn open_exec(&mut self, cmd: &str) -> (id: u64)
        requires
            old(self).wf(),
        ensures
            final(self).wf(),
            id == old(self)@.mux.next_local_id,
            final(self)@ == (ClientView {
                mux: old(self)@.mux.after_open(
                    StreamKind::Session,
                    vstd::utf8::encode_utf8(cmd@),
                ),
                ..old(self)@
            }),
            crate::forward::server_asks(
                crate::forward::announcement(final(self)@.mux, id),
                false,
            ) == (crate::forward::ActionView::Exec { id, command: cmd@ }),
    {
        proof {
            crate::forward::law_command_is_run_as_asked(self@.mux.next_local_id, cmd@);
        }
        self.open_stream(StreamKind::Session, slice_to_vec(cmd.as_bytes()))
    }

    /// Queue bytes to send on a stream.
    pub fn stream_write(&mut self, id: u64, data: &[u8])
        requires
            old(self).wf(),
        ensures
            final(self).wf(),
            final(self)@ == (ClientView { mux: old(self)@.mux.written(id, data@), ..old(self)@ }),
    {
        self.mux.write(id, data);
        proof {
            self.mux.lemma_view_wf();
        }
    }

    /// Read available contiguous bytes from a stream.
    pub fn stream_read(&mut self, id: u64) -> (out: Vec<u8>)
        requires
            old(self).wf(),
        ensures
            final(self).wf(),
            out@ == old(self)@.mux.readable(id),
            final(self)@ == (ClientView { mux: old(self)@.mux.after_read(id), ..old(self)@ }),
    {
        let out: Vec<u8> = self.mux.read(id);
        proof {
            self.mux.lemma_view_wf();
        }
        out
    }

    /// Close our send half of a stream.
    pub fn stream_close(&mut self, id: u64)
        requires
            old(self).wf(),
        ensures
            final(self).wf(),
            final(self)@ == (ClientView { mux: old(self)@.mux.closed(id, 0), ..old(self)@ }),
    {
        self.mux.close(id, 0);
        proof {
            self.mux.lemma_view_wf();
        }
    }

    /// Request a remote forward (`-R`): ask the server to listen on `bind_port`
    /// and tunnel accepted connections back to us for delivery to `target`. The
    /// request is retransmitted for a bounded window (no ack exists, so we resend
    /// to survive packet loss).
    pub fn request_remote_forward(&mut self, bind_port: u16, target: &str)
        requires
            old(self).wf(),
        ensures
            final(self).wf(),
            final(self)@ == (ClientView {
                requests: RequestsView {
                    forwards: old(self)@.requests.forwards.push((bind_port, target@)),
                    forward_ticks: 0,
                    ..old(self)@.requests
                },
                ..old(self)@
            }),
            vstd::utf8::encode_utf8(target@).len() <= u64::MAX
                ==> crate::server_session::control_of(
                final(self)@.requests.forward_frames().last(),
            ) == Some(ControlView::RemoteForward { bind_port, target: target@ }),
    {
        proof {
            let m = ControlView::RemoteForward { bind_port, target: target@ };
            if vstd::utf8::encode_utf8(target@).len() <= u64::MAX {
                crate::control::law_control_roundtrip(m);
            }
        }
        self.requests.forward(bind_port, target);
    }

    /// Bytes written to a stream but not yet acked (for driver backpressure).
    pub fn stream_in_flight(&self, id: u64) -> (r: u64)
        requires
            self.wf(),
        ensures
            r == self@.mux.in_flight(id),
    {
        self.mux.in_flight(id)
    }

    /// True once the peer closed its send half and we've read every byte.
    pub fn stream_recv_finished(&self, id: u64) -> (r: bool)
        requires
            self.wf(),
        ensures
            r == self@.mux.recv_finished(id),
    {
        self.mux.is_recv_finished(id)
    }

    /// Drain stream lifecycle events (Opened/Readable/Closed/Reset).
    pub fn take_stream_events(&mut self) -> (evs: Vec<StreamEvent>)
        requires
            old(self).wf(),
        ensures
            final(self).wf(),
            crate::stream::event_views(evs@) == old(self)@.events,
            final(self)@ == (ClientView { events: Seq::empty(), ..old(self)@ }),
    {
        let mut evs: Vec<StreamEvent> = Vec::new();
        std::mem::swap(&mut evs, &mut self.events);
        assert(crate::stream::event_views(self.events@) =~= Seq::<EventView>::empty());
        evs
    }

    /// A keepalive datagram (Ping) to refresh NAT mappings and prove liveness
    /// while idle. `None` before the session is established.
    pub fn keepalive(&mut self) -> (r: Option<Vec<u8>>)
        requires
            old(self).wf(),
        ensures
            final(self).wf(),
            match old(self)@.session {
                None => r is None && final(self)@ == old(self)@,
                Some(s) => {
                    &&& match s.packet(seq![FrameView::Ping { stamp: 0 }]) {
                        Ok(p) => r matches Some(x) && x@ == p,
                        Err(_) => r is None,
                    }
                    &&& final(self)@ == (ClientView {
                        session: Some(s.after_packet()),
                        ..old(self)@
                    })
                },
            },
    {
        let mut session: Session = match self.session.take() {
            Some(s) => s,
            None => return None,
        };
        let ping: [Frame; 1] = [Frame::Ping { stamp: 0 }];
        assert(crate::wire::frame_views(ping@) =~= seq![FrameView::Ping { stamp: 0 }]);
        let sealed = session.seal(&ping);
        self.session = Some(session);
        match sealed {
            Ok(p) => Some(p),
            Err(_) => None,
        }
    }

    fn outgoing(&mut self) -> (r: Result<Vec<Vec<u8>>, RuntimeError>)
        requires
            old(self).wf(),
        ensures
            final(self).wf(),
            final(self)@ == old(self)@.after_outgoing(),
            match old(self)@.outgoing() {
                Ok(ps) => r matches Ok(out) && crate::transport::packets_view(out@) == ps,
                Err(e) => r matches Err(x) && x@ == RuntimeErrorView::Transport(e),
            },
    {
        let ghost v0 = self@;
        let mut session: Session = match self.session.take() {
            Some(s) => s,
            None => {
                let none: Vec<Vec<u8>> = Vec::new();
                assert(crate::transport::packets_view(none@) =~= Seq::<Seq<u8>>::empty());
                return Ok(none);
            },
        };
        let mut frames: Vec<Frame> = self.requests.poll_frames();
        let ghost a = frames@;
        let mut typed: Vec<Frame> = self.shell.poll_frames();
        let ghost b = typed@;
        frames.append(&mut typed);
        let mut streamed: Vec<Frame> = self.mux.poll_transmit();
        let ghost c = streamed@;
        frames.append(&mut streamed);
        assert(crate::wire::frame_views(frames@) =~= crate::wire::frame_views(a)
            + crate::wire::frame_views(b) + crate::wire::frame_views(c));
        let sealed = session.seal_many(frames.as_slice(), MAX_DATAGRAM_PLAINTEXT);
        self.session = Some(session);
        self.keep_events();
        match sealed {
            Ok(out) => {
                self.need_ack = false;  // only clear once the ack is actually sealed
                Ok(out)
            },
            Err(e) => Err(RuntimeError::Transport(e)),
        }
    }
}

/// What a handshake packet does to a client: a message that is refused leaves
/// the handshake where it was; one that is accepted finishes it. The session is
/// then established if the server's key is
/// not a mismatch, and the reply is followed by what there is to send.
pub open spec fn handshake_step(
    before: ClientView,
    accepted: bool,
    body: Seq<u8>,
    after: ClientView,
    r: Result<Vec<Vec<u8>>, RuntimeError>,
) -> bool {
    match before.hs {
        None => r matches Err(e) && e@ == RuntimeErrorView::Handshake && after == before,
        Some(h0) => match r {
            Ok(out) => {
                &&& accepted
                &&& out@.len() > 0
                &&& exists|h: HandshakerView| #[trigger]
                    ends(h0, h, body) && crate::handshake::message_packet(
                        out@[0]@,
                        h0.id,
                        h.noise.exchanged.last().0,
                    ) && before.trust(h) != Tofu::Mismatch && after == before.joined(
                        h,
                    ).after_outgoing() && before.joined(h).outgoing() == Ok::<
                        Seq<Seq<u8>>,
                        TransportErrorView,
                    >(crate::transport::packets_view(out@).skip(1))
            },
            Err(e) => match e@ {
                RuntimeErrorView::HandshakeDriver(_) => {
                    &&& !accepted
                    &&& after.hs matches Some(h)
                    &&& crate::handshake::refused(h0, h)
                    &&& after == (ClientView { hs: after.hs, ..before })
                },
                RuntimeErrorView::HostKeyMismatch(l) => {
                    &&& accepted
                    &&& l == before.label
                    &&& after.hs matches Some(h)
                    &&& ends(h0, h, body)
                    &&& before.trust(h) == Tofu::Mismatch
                    &&& after == (ClientView { hs: after.hs, ..before })
                },
                RuntimeErrorView::Transport(x) => {
                    &&& accepted
                    &&& exists|h: HandshakerView| #[trigger]
                        ends(h0, h, body) && before.trust(h) != Tofu::Mismatch && after == before.joined(
                            h,
                        ).after_outgoing() && before.joined(h).outgoing() == Err::<
                            Seq<Seq<u8>>,
                            TransportErrorView,
                        >(x)
                },
                _ => false,
            },
        },
    }
}

// ---------------------------------------------------------------------------
// Laws
// ---------------------------------------------------------------------------

/// A packet that is not authentic leaves the client as it was.
pub proof fn law_forged_packet_ignored(v: ClientView, packet: Seq<u8>)
    requires
        v.session matches Some(s) && s.authentic(packet) is Err,
    ensures
        v.after_packet(packet) == v,
{
}

/// A session is only ever established with a server whose key is the one pinned
/// for it, or, on first contact, with one whose key is pinned from then on.
pub proof fn law_session_needs_trusted_key(
    before: ClientView,
    accepted: bool,
    body: Seq<u8>,
    after: ClientView,
    r: Result<Vec<Vec<u8>>, RuntimeError>,
)
    requires
        before.wf(),
        handshake_step(before, accepted, body, after, r),
        before.session is None,
        after.session is Some,
    ensures
        after.server_static matches Some(key) && {
            &&& before.known.dom().contains(before.label) ==> before.known[before.label] == key
            &&& after.known.dom().contains(before.label) && after.known[before.label] == key
            &&& forall|other: Seq<char>|
                other != before.label && #[trigger] before.known.dom().contains(other)
                    ==> after.known.dom().contains(other) && after.known[other]
                    == before.known[other]
        },
{
}

/// When the answer of a server whose key is trusted comes to the handshake that it
/// belongs to, the session is established, and the packet that is sent first is the
/// one that the server's side of the handshake awaits. If the answer tells the
/// server's version, the client knows it at once.
pub proof fn law_reply_is_awaited(
    before: ClientView,
    server: Handshaker,
    body: Seq<u8>,
    carries: Seq<u8>,
    after: ClientView,
    r: Result<Vec<Vec<u8>>, RuntimeError>,
)
    requires
        before.wf(),
        server@.wf(),
        before.hs matches Some(h0) && crate::noise::awaits(
            h0.noise,
            server@.noise,
            body,
            carries,
        ),
        handshake_step(before, true, body, after, r),
        r is Ok,
    ensures
        exists|h: HandshakerView, message: Seq<u8>| #[trigger]
            crate::noise::awaits(server@.noise, h.noise, message, Seq::empty())
                && crate::handshake::message_packet(r->Ok_0@[0]@, h.id, message) && h.id
                == before.hs->0.id && h.finished && after.session is Some && after.server_static
                == h.noise.remote,
        crate::handshake::version_in(carries) is Some ==> after.server_version
            == crate::handshake::version_in(carries),
{
    let h0 = before.hs->0;
    let out = r->Ok_0;
    let h = choose|h: HandshakerView| #[trigger]
        ends(h0, h, body) && crate::handshake::message_packet(
            out@[0]@,
            h0.id,
            h.noise.exchanged.last().0,
        ) && before.trust(h) != Tofu::Mismatch && after == before.joined(h).after_outgoing()
            && before.joined(h).outgoing() == Ok::<Seq<Seq<u8>>, TransportErrorView>(
            crate::transport::packets_view(out@).skip(1),
        );
    let n = h0.noise.exchanged.len() as int;
    let e = h.noise.exchanged;
    assert(e.take(n) == h0.noise.exchanged);
    assert forall|i: int| 0 <= i < n implies e[i] == h0.noise.exchanged[i] by {
        assert(e.take(n)[i] == e[i]);
    }
    assert(e =~= server@.noise.exchanged.push((e.last().0, Seq::empty())));
    assert(crate::noise::awaits(server@.noise, h.noise, e.last().0, Seq::empty()));
}

/// A reply that does not belong to the handshake does not end it: the server's own
/// reply is awaited afterwards as it was before.
pub proof fn law_bogus_reply_harmless(
    before: ClientView,
    body: Seq<u8>,
    after: ClientView,
    r: Result<Vec<Vec<u8>>, RuntimeError>,
)
    requires
        before.wf(),
        before.hs is Some,
        before.hs->0.noise.messages == 1,
        handshake_step(before, false, body, after, r),
    ensures
        after == (ClientView { hs: after.hs, ..before }),
        after.hs matches Some(h) && forall|server: Handshaker, message: Seq<u8>, carries: Seq<u8>|
            #[trigger]
            crate::noise::awaits(before.hs->0.noise, server@.noise, message, carries)
                ==> crate::noise::awaits(h.noise, server@.noise, message, carries),
{
}

/// A server that shows another key than the pinned one gets no session, and the
/// pin stays.
pub proof fn law_mismatch_is_refused(
    before: ClientView,
    accepted: bool,
    body: Seq<u8>,
    after: ClientView,
    r: Result<Vec<Vec<u8>>, RuntimeError>,
)
    requires
        before.wf(),
        before.session is None,
        handshake_step(before, accepted, body, after, r),
        r matches Err(e) && e@ is HostKeyMismatch,
    ensures
        after.session is None,
        after.known == before.known,
        after.server_static == before.server_static,
{
}

/// Before there is a session nothing but the handshake is sent: ticks send nothing
/// and change nothing.
pub proof fn law_silent_before_session(v: ClientView)
    requires
        v.session is None,
    ensures
        v.outgoing() == Ok::<Seq<Seq<u8>>, TransportErrorView>(Seq::empty()),
        v.after_outgoing() == v,
{
}

/// Once the server has told the shell's exit status it is known, whatever other
/// frames follow, unless it is told again.
pub proof fn law_exit_is_learned(v: ClientView, frames: Seq<FrameView>, n: int)
    requires
        0 <= n <= frames.len(),
        v.exited is Some,
    ensures
        v.after_frames(frames, n).exited is Some,
    decreases n,
{
    if n > 0 {
        law_exit_is_learned(v, frames, n - 1);
    }
}

} // verus!
