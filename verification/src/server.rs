//! Server runtime: the socket-free [`ServerCore`] consumes raw packets and
//! returns raw packets to send. Ptys are run by a driver: the core tells it what
//! to do with them, and is told what came of it.

use crate::auth::{AuthorizedKeys, KeyEntry};
use crate::control::{ControlMsg, ControlView};
use crate::handshake::{HandshakeError, Handshaker, HandshakerView, HsOutcome};
use crate::login::SpawnRequest;
use crate::noise::Keypair;
use crate::proto::authorize_client;
use crate::server_session::{
    Datagrams, PtyAction, PtyActionView, ServerSession, ServerSessionView, TickOutcome,
};
use crate::stream::{EventView, MuxView, StreamEvent};
use crate::transport::{parse_packet, Addr, Packet, PacketView, SessionId};
use crate::wire::{Frame, FrameView, StreamKind};
use vstd::prelude::*;

verus! {

/// Cap on simultaneously in-flight (incomplete) handshakes, bounding memory
/// against a flood of fresh session-ids from a spoofed source.
pub const MAX_PENDING_HANDSHAKES: usize = 512;

/// Where the entry of an id is, the first from `from` on.
pub open spec fn position<T>(entries: Seq<(Seq<u8>, T)>, id: Seq<u8>, from: int) -> Option<int>
    decreases entries.len() - from,
{
    if from < 0 || from >= entries.len() {
        None
    } else if entries[from].0 == id {
        Some(from)
    } else {
        position(entries, id, from + 1)
    }
}

/// No id has two entries.
pub open spec fn distinct<T>(entries: Seq<(Seq<u8>, T)>) -> bool {
    forall|i: int, j: int|
        0 <= i < j < entries.len() ==> (#[trigger] entries[i]).0 != (#[trigger] entries[j]).0
}

/// A stream event, a request for a remote forward, with their session.
pub type TaggedEvent = (Seq<u8>, EventView);

pub type ForwardRequest = (Seq<u8>, u16, Seq<char>);

/// The state of a server.
pub struct ServerView {
    pub public: Seq<u8>,
    pub private: Seq<u8>,
    pub authorized: Seq<KeyEntry>,
    pub command: Option<Seq<Seq<char>>>,
    pub user: Option<Seq<char>>,
    /// Handshakes that are not finished.
    pub pending: Seq<(Seq<u8>, HandshakerView)>,
    /// The sessions.
    pub sessions: Seq<(Seq<u8>, ServerSessionView)>,
    /// There has been a session.
    pub ever_active: bool,
    /// Stream events not yet taken.
    pub events: Seq<TaggedEvent>,
    /// Requests for remote forwards not yet taken.
    pub forwards: Seq<ForwardRequest>,
}

/// The first session, from `from` on, in which a shell of the client runs.
pub open spec fn running_for(
    sessions: Seq<(Seq<u8>, ServerSessionView)>,
    key: Seq<u8>,
    from: int,
) -> Option<int>
    decreases sessions.len() - from,
{
    if from < 0 || from >= sessions.len() {
        None
    } else if sessions[from].1.running() && sessions[from].1.client_key == key {
        Some(from)
    } else {
        running_for(sessions, key, from + 1)
    }
}

/// Those of the first `n` sessions in which a shell runs under a pty, in order.
pub open spec fn with_shells(sessions: Seq<(Seq<u8>, ServerSessionView)>, n: int) -> Seq<Seq<u8>>
    decreases n,
{
    if n <= 0 {
        Seq::empty()
    } else if sessions[n - 1].1.pty {
        with_shells(sessions, n - 1).push(sessions[n - 1].0)
    } else {
        with_shells(sessions, n - 1)
    }
}

/// How the shell of a session ended, by what the driver reports.
pub open spec fn exit_of(exits: Seq<(Seq<u8>, i32)>, id: Seq<u8>) -> Option<i32> {
    match position(exits, id, 0) {
        Some(i) => Some(exits[i].1),
        None => None,
    }
}

/// What a tick does to the first `n` sessions.
pub struct TickedAll {
    /// The sessions that go on.
    pub kept: Seq<(Seq<u8>, ServerSessionView)>,
    pub out: Datagrams,
    pub events: Seq<TaggedEvent>,
    /// The sessions whose pty is to be killed.
    pub killed: Seq<Seq<u8>>,
}

/// Events with their session.
pub open spec fn tagged(id: Seq<u8>, events: Seq<EventView>) -> Seq<TaggedEvent> {
    Seq::new(events.len(), |i: int| (id, events[i]))
}

pub open spec fn ticked_all(
    sessions: Seq<(Seq<u8>, ServerSessionView)>,
    exits: Seq<(Seq<u8>, i32)>,
    n: int,
) -> TickedAll
    decreases n,
{
    if n <= 0 {
        TickedAll {
            kept: Seq::empty(),
            out: Seq::empty(),
            events: Seq::empty(),
            killed: Seq::empty(),
        }
    } else {
        let before = ticked_all(sessions, exits, n - 1);
        let id = sessions[n - 1].0;
        let t = sessions[n - 1].1.ticked(exit_of(exits, id));
        TickedAll {
            kept: if t.finished {
                before.kept
            } else {
                before.kept.push((id, t.after))
            },
            out: before.out + t.out,
            events: before.events + tagged(id, t.events),
            killed: if t.kill {
                before.killed.push(id)
            } else {
                before.killed
            },
        }
    }
}

impl ServerView {
    /// A state that a server can be in: no session id is used twice, and every
    /// handshake that is not finished awaits the client's last message.
    pub open spec fn wf(self) -> bool {
        &&& self.private.len() <= crate::noise::KEY_LEN
        &&& distinct(self.sessions)
        &&& distinct(self.pending)
        &&& self.pending.len() <= MAX_PENDING_HANDSHAKES
        &&& forall|i: int|
            0 <= i < self.pending.len() ==> awaits_last(
                (#[trigger] self.pending[i]).1,
                self.pending[i].0,
            )
    }

    /// The session of an id.
    pub open spec fn session(self, id: Seq<u8>) -> Option<ServerSessionView> {
        match position(self.sessions, id, 0) {
            Some(i) => Some(self.sessions[i].1),
            None => None,
        }
    }

    /// A session existed, and the shells of all sessions have exited.
    pub open spec fn all_done(self) -> bool {
        self.ever_active && forall|i: int|
            0 <= i < self.sessions.len() ==> (#[trigger] self.sessions[i]).1.exit_status is Some
    }

    /// With another state of the session of an id.
    pub open spec fn with_session(self, id: Seq<u8>, s: ServerSessionView) -> ServerView {
        match position(self.sessions, id, 0) {
            Some(i) => ServerView { sessions: self.sessions.update(i, (id, s)), ..self },
            None => self,
        }
    }

    /// With other streams of the session of an id.
    pub open spec fn with_mux(self, id: Seq<u8>, mux: MuxView) -> ServerView {
        match self.session(id) {
            Some(s) => self.with_session(id, ServerSessionView { mux, ..s }),
            None => self,
        }
    }

    /// After the handshake `h` of a session id finished with a packet from
    /// `src`: a client whose key is authorized gets a session, with its shell if
    /// one runs, which is moved there from the session that it had.
    pub open spec fn admitted(self, id: Seq<u8>, h: HandshakerView, src: Addr) -> ServerView {
        let key = h.noise.remote.unwrap();
        if !crate::proto::is_authorized(self.authorized, key) {
            self
        } else {
            let fresh = ServerSessionView::fresh(
                crate::handshake::session_of(h, Some(src)),
                key,
                crate::server_session::fresh_mux(),
            );
            match running_for(self.sessions, key, 0) {
                Some(i) => ServerView {
                    sessions: self.sessions.remove(i).push(
                        (id, fresh.taking_over(self.sessions[i].1)),
                    ),
                    ever_active: true,
                    ..self
                },
                None => ServerView {
                    sessions: self.sessions.push((id, fresh)),
                    ever_active: true,
                    ..self
                },
            }
        }
    }

    /// The session whose shell is moved then.
    pub open spec fn moved(self, h: HandshakerView) -> Option<Seq<u8>> {
        let key = h.noise.remote.unwrap();
        if !crate::proto::is_authorized(self.authorized, key) {
            None
        } else {
            match running_for(self.sessions, key, 0) {
                Some(i) => Some(self.sessions[i].0),
                None => None,
            }
        }
    }

    /// After a frame of a session.
    pub open spec fn after_frame(self, id: Seq<u8>, f: FrameView) -> ServerView {
        match self.session(id) {
            None => self,
            Some(s) => {
                let v = self.with_session(id, s.after_frame(f));
                match crate::server_session::control_of(f) {
                    Some(ControlView::RemoteForward { bind_port, target }) => ServerView {
                        forwards: v.forwards.push((id, bind_port, target)),
                        ..v
                    },
                    _ => v,
                }
            },
        }
    }

    /// After the frames of a packet, and the replies to them, which are sent if
    /// there are any.
    pub open spec fn after_replies(self, id: Seq<u8>, replies: Seq<FrameView>) -> ServerView {
        match self.session(id) {
            None => self,
            Some(s) => {
                let t = ServerSessionView {
                    mux: crate::stream::MuxView { events: Seq::empty(), ..s.mux },
                    ..s
                };
                ServerView {
                    events: self.events + tagged(id, s.mux.events),
                    ..self.with_session(id, t.after_all_sent(replies))
                }
            },
        }
    }

    /// The packets that carry the replies.
    pub open spec fn replies_sent(self, id: Seq<u8>, replies: Seq<FrameView>) -> Datagrams {
        match self.session(id) {
            Some(s) => if replies.len() > 0 {
                s.all_sent(replies)
            } else {
                Seq::empty()
            },
            None => Seq::empty(),
        }
    }

    /// After a tick.
    pub open spec fn after_tick(self, exits: Seq<(Seq<u8>, i32)>) -> ServerView {
        let t = ticked_all(self.sessions, exits, self.sessions.len() as int);
        ServerView { sessions: t.kept, events: self.events + t.events, ..self }
    }
}

/// A server's side of a handshake that awaits the client's last message.
pub open spec fn awaits_last(h: HandshakerView, id: Seq<u8>) -> bool {
    h.wf() && h.id == id && !h.noise.initiator && h.noise.messages + 1 == crate::noise::MESSAGES
}

/// `h` is how the handshake `before` ends.
pub open spec fn finishes(before: HandshakerView, h: HandshakerView, body: Seq<u8>) -> bool {
    &&& h.wf()
    &&& h.finished
    &&& h.id == before.id
    &&& crate::noise::received(before.noise, h.noise, body, h.noise.exchanged.last().1)
    &&& crate::handshake::heard(before.noise, h.noise, body)
    &&& crate::handshake::keyed(h.noise)
}

/// `h` is how a handshake begins that the packet with this body asks for, and the
/// packet answers it.
pub open spec fn answers(h: HandshakerView, id: Seq<u8>, body: Seq<u8>, packet: Seq<u8>) -> bool {
    &&& awaits_last(h, id)
    &&& h.noise.clean
    &&& h.noise.exchanged[0].0 == body
    &&& h.noise.exchanged[1].1 == crate::handshake::reply_payload(false)
    &&& crate::handshake::message_packet(packet, id, h.noise.exchanged[1].0)
}

/// What a handshake packet does to a server.
///
/// One for an established session does nothing. One that a pending handshake
/// refuses leaves it where it was; one that it accepts finishes it. Any other
/// begins a handshake, which is answered, if it is long enough and there are not
/// too many; there is no answer where no randomness is to be had.
pub open spec fn handshake_step(
    before: ServerView,
    accepted: bool,
    src: Addr,
    id: Seq<u8>,
    body: Seq<u8>,
    after: ServerView,
    out: Datagrams,
    moved: Option<Seq<u8>>,
) -> bool {
    if position(before.sessions, id, 0) is Some {
        after == before && out.len() == 0 && moved is None
    } else {
        match position(before.pending, id, 0) {
            Some(i) => {
                let h0 = before.pending[i].1;
                &&& out.len() == 0
                &&& if accepted {
                    exists|h: HandshakerView| #[trigger]
                        finishes(h0, h, body) && after == (ServerView {
                            pending: before.pending.remove(i),
                            ..before
                        }).admitted(id, h, src) && moved == before.moved(h)
                } else {
                    &&& moved is None
                    &&& exists|h: HandshakerView| #[trigger]
                        crate::handshake::refused(h0, h) && after == (ServerView {
                            pending: before.pending.update(i, (id, h)),
                            ..before
                        })
                }
            },
            None => {
                &&& moved is None
                &&& if before.pending.len() >= MAX_PENDING_HANDSHAKES || body.len() + 9
                    < crate::transport::MIN_HANDSHAKE_INIT || body.len()
                    > crate::noise::MAX_MESSAGE {
                    after == before && out.len() == 0
                } else if out.len() == 0 {
                    after == before
                } else {
                    &&& out.len() == 1
                    &&& out[0].0 == src
                    &&& exists|h: HandshakerView| #[trigger]
                        answers(h, id, body, out[0].1) && h.noise.private == before.private
                            && after == (ServerView {
                            pending: before.pending.push((id, h)),
                            ..before
                        })
                }
            },
        }
    }
}

/// What came of a packet.
pub enum Received {
    /// Datagrams to send, and the session whose pty belongs to the packet's
    /// session from now on.
    Replies { out: Vec<(Addr, Vec<u8>)>, moved: Option<SessionId> },
    /// Frames of a session, to be processed one by one.
    Frames { session_id: SessionId, frames: Vec<Frame> },
}

/// Per-session, socket-free server logic. Consumes raw packets and returns raw
/// packets to send, so it can be driven directly by an in-memory shim.
pub struct ServerCore {
    keypair: Keypair,
    authorized: AuthorizedKeys,
    command: Option<Vec<String>>,
    user: Option<String>,
    pending: Vec<(SessionId, Handshaker)>,
    sessions: Vec<(SessionId, ServerSession)>,
    ever_active: bool,
    stream_events: Vec<(SessionId, StreamEvent)>,
    remote_forward_requests: Vec<(SessionId, u16, String)>,
}

spec fn session_views(v: Seq<(SessionId, ServerSession)>) -> Seq<(Seq<u8>, ServerSessionView)> {
    Seq::new(v.len(), |i: int| (v[i].0@, v[i].1@))
}

spec fn pending_views(v: Seq<(SessionId, Handshaker)>) -> Seq<(Seq<u8>, HandshakerView)> {
    Seq::new(v.len(), |i: int| (v[i].0@, v[i].1@))
}

/// What events of sessions say.
pub open spec fn event_views(v: Seq<(SessionId, StreamEvent)>) -> Seq<TaggedEvent> {
    Seq::new(v.len(), |i: int| (v[i].0@, v[i].1@))
}

/// What requests for remote forwards say.
pub open spec fn forward_views(v: Seq<(SessionId, u16, String)>) -> Seq<ForwardRequest> {
    Seq::new(v.len(), |i: int| (v[i].0@, v[i].1, v[i].2@))
}

/// What reports of ended shells say.
pub open spec fn exit_views(v: Seq<(SessionId, i32)>) -> Seq<(Seq<u8>, i32)> {
    Seq::new(v.len(), |i: int| (v[i].0@, v[i].1))
}

/// What session ids say.
pub open spec fn id_views(v: Seq<SessionId>) -> Seq<Seq<u8>> {
    Seq::new(v.len(), |i: int| v[i]@)
}

impl View for ServerCore {
    type V = ServerView;

    closed spec fn view(&self) -> ServerView {
        ServerView {
            public: self.keypair.public@,
            private: self.keypair.private@,
            authorized: self.authorized@,
            command: match self.command {
                Some(c) => Some(crate::login::texts(c@)),
                None => None,
            },
            user: match self.user {
                Some(u) => Some(u@),
                None => None,
            },
            pending: pending_views(self.pending@),
            sessions: session_views(self.sessions@),
            ever_active: self.ever_active,
            events: event_views(self.stream_events@),
            forwards: forward_views(self.remote_forward_requests@),
        }
    }
}

pub(crate) fn same_id(a: &SessionId, b: &SessionId) -> (r: bool)
    ensures
        r == (a@ == b@),
{
    let mut i: usize = 0;
    while i < 8
        invariant
            i <= 8,
            a@.len() == 8,
            b@.len() == 8,
            forall|j: int| 0 <= j < i ==> a@[j] == b@[j],
        decreases 8 - i,
    {
        if a[i] != b[i] {
            return false;
        }
        i += 1;
    }
    assert(a@ =~= b@);
    true
}

proof fn lemma_position<T>(entries: Seq<(Seq<u8>, T)>, id: Seq<u8>, from: int)
    requires
        0 <= from <= entries.len(),
    ensures
        match position(entries, id, from) {
            Some(i) => from <= i < entries.len() && entries[i].0 == id,
            None => forall|i: int| from <= i < entries.len() ==> (#[trigger] entries[i]).0 != id,
        },
    decreases entries.len() - from,
{
    if from < entries.len() && entries[from].0 != id {
        lemma_position(entries, id, from + 1);
    }
}

proof fn lemma_distinct_push<T>(entries: Seq<(Seq<u8>, T)>, id: Seq<u8>, t: T)
    requires
        distinct(entries),
        position(entries, id, 0) is None,
    ensures
        distinct(entries.push((id, t))),
{
    lemma_position(entries, id, 0);
}

proof fn lemma_distinct_remove<T>(entries: Seq<(Seq<u8>, T)>, i: int)
    requires
        distinct(entries),
        0 <= i < entries.len(),
    ensures
        distinct(entries.remove(i)),
        position(entries.remove(i), entries[i].0, 0) is None,
        forall|id: Seq<u8>|
            #![trigger position(entries.remove(i), id, 0)]
            position(entries, id, 0) is None ==> position(entries.remove(i), id, 0) is None,
{
    let rest = entries.remove(i);
    assert forall|a: int, b: int| 0 <= a < b < rest.len() implies (#[trigger] rest[a]).0 != (
    #[trigger] rest[b]).0 by {
        let a0 = if a < i {
            a
        } else {
            a + 1
        };
        let b0 = if b < i {
            b
        } else {
            b + 1
        };
        assert(rest[a] == entries[a0] && rest[b] == entries[b0]);
    }
    assert forall|id: Seq<u8>|
        #![trigger position(rest, id, 0)]
        position(entries, id, 0) is None || id == entries[i].0 implies position(rest, id, 0) is None by {
        lemma_position(entries, id, 0);
        lemma_position(rest, id, 0);
        if let Some(k) = position(rest, id, 0) {
            let k0 = if k < i {
                k
            } else {
                k + 1
            };
            assert(rest[k] == entries[k0]);
            if k0 < i {
                assert(entries[k0].0 != entries[i].0);
            } else if i < k0 {
                assert(entries[i].0 != entries[k0].0);
            }
        }
    }
}

impl ServerCore {
    /// The server is in a state that it can be in.
    pub closed spec fn wf(&self) -> bool {
        &&& self@.wf()
        &&& forall|i: int| 0 <= i < self.sessions@.len() ==> (#[trigger] self.sessions@[i]).1.wf()
        &&& forall|i: int| 0 <= i < self.pending@.len() ==> (#[trigger] self.pending@[i]).1.wf()
    }

    /// A message body is accepted by the pending handshake of a session.
    pub closed spec fn accepts(&self, id: Seq<u8>, body: Seq<u8>) -> bool {
        position(self@.pending, id, 0) matches Some(i) && self.pending@[i].1.accepts(body)
    }

    /// If the body is what the other side of a pending handshake sent after the two
    /// had exchanged the same messages, it is accepted.
    pub open spec fn accepts_what_it_awaits(&self, id: Seq<u8>, body: Seq<u8>) -> bool {
        position(self@.sessions, id, 0) is None ==> (position(self@.pending, id, 0) matches Some(i)
            ==> forall|other: Handshaker, carries: Seq<u8>| #[trigger]
                crate::noise::awaits(self@.pending[i].1.noise, other@.noise, body, carries)
                    ==> self.accepts(id, body))
    }

    /// What well-formedness says of the state.
    pub proof fn lemma_view_wf(&self)
        requires
            self.wf(),
        ensures
            self@.wf(),
            forall|i: int| 0 <= i < self@.sessions.len() ==> (#[trigger] self@.sessions[i]).1.wf(),
    {
        assert forall|i: int| 0 <= i < self@.sessions.len() implies (#[trigger]
        self@.sessions[i]).1.wf() by {
            self.sessions@[i].1.lemma_view_wf();
        }
    }

    /// Build a server core. `command` overrides the login shell.
    pub fn new(keypair: Keypair, authorized: AuthorizedKeys, command: Option<Vec<String>>) -> (r:
        ServerCore)
        requires
            keypair.private@.len() <= crate::noise::KEY_LEN,
        ensures
            r.wf(),
            r@ == (ServerView {
                public: keypair.public@,
                private: keypair.private@,
                authorized: authorized@,
                command: match command {
                    Some(c) => Some(crate::login::texts(c@)),
                    None => None,
                },
                user: None,
                pending: Seq::empty(),
                sessions: Seq::empty(),
                ever_active: false,
                events: Seq::empty(),
                forwards: Seq::empty(),
            }),
    {
        let r = ServerCore {
            keypair,
            authorized,
            command,
            user: None,
            pending: Vec::new(),
            sessions: Vec::new(),
            ever_active: false,
            stream_events: Vec::new(),
            remote_forward_requests: Vec::new(),
        };
        assert(r@.pending =~= Seq::<(Seq<u8>, HandshakerView)>::empty());
        assert(r@.sessions =~= Seq::<(Seq<u8>, ServerSessionView)>::empty());
        assert(r@.events =~= Seq::<TaggedEvent>::empty());
        assert(r@.forwards =~= Seq::<ForwardRequest>::empty());
        r
    }

    /// A server that runs the current user's shell.
    pub fn local(keypair: Keypair, authorized: AuthorizedKeys) -> (r: ServerCore)
        requires
            keypair.private@.len() <= crate::noise::KEY_LEN,
        ensures
            r.wf(),
            r@ == (ServerView {
                public: keypair.public@,
                private: keypair.private@,
                authorized: authorized@,
                command: None,
                user: None,
                pending: Seq::empty(),
                sessions: Seq::empty(),
                ever_active: false,
                events: Seq::empty(),
                forwards: Seq::empty(),
            }),
    {
        ServerCore::new(keypair, authorized, None)
    }

    /// Set the target user for spawned sessions (privsep backend).
    pub fn with_user(self, user: Option<String>) -> (r: ServerCore)
        requires
            self.wf(),
        ensures
            r.wf(),
            r@ == (ServerView {
                user: match user {
                    Some(u) => Some(u@),
                    None => None,
                },
                ..self@
            }),
    {
        let mut r: ServerCore = self;
        r.user = user;
        r
    }

    /// Force a fixed command instead of the login shell (deterministic tests).
    pub fn with_command(self, command: Vec<String>) -> (r: ServerCore)
        requires
            self.wf(),
        ensures
            r.wf(),
            r@ == (ServerView { command: Some(crate::login::texts(command@)), ..self@ }),
    {
        let mut r: ServerCore = self;
        r.command = Some(command);
        r
    }

    /// One-shot lifecycle: true once a session existed and all sessions have
    /// since reported their shell's exit.
    pub fn all_done(&self) -> (r: bool)
        ensures
            r == self@.all_done(),
    {
        if !self.ever_active {
            return false;
        }
        let mut i: usize = 0;
        while i < self.sessions.len()
            invariant
                i <= self.sessions@.len(),
                forall|j: int|
                    0 <= j < i ==> (#[trigger] self@.sessions[j]).1.exit_status is Some,
            decreases self.sessions@.len() - i,
        {
            if !self.sessions[i].1.has_exited() {
                assert(!(self@.sessions[i as int].1.exit_status is Some));
                return false;
            }
            i += 1;
        }
        true
    }

    /// How many sessions there are.
    pub fn session_count(&self) -> (r: usize)
        ensures
            r == self@.sessions.len(),
    {
        self.sessions.len()
    }

    /// The server's static public key (for clients to pin).
    pub fn public_key(&self) -> (r: &[u8])
        ensures
            r@ == self@.public,
    {
        self.keypair.public.as_slice()
    }

    /// The sessions whose pty the driver serves.
    pub fn pty_sessions(&self) -> (r: Vec<SessionId>)
        ensures
            id_views(r@) == with_shells(self@.sessions, self@.sessions.len() as int),
    {
        let mut r: Vec<SessionId> = Vec::new();
        let mut i: usize = 0;
        assert(id_views(r@) =~= Seq::<Seq<u8>>::empty());
        while i < self.sessions.len()
            invariant
                i <= self.sessions@.len(),
                id_views(r@) == with_shells(self@.sessions, i as int),
            decreases self.sessions@.len() - i,
        {
            if self.sessions[i].1.has_pty() {
                let ghost before = r@;
                r.push(self.sessions[i].0);
                assert(id_views(r@) =~= id_views(before).push(self@.sessions[i as int].0));
            }
            i += 1;
        }
        r
    }

    fn find(&self, id: &SessionId) -> (r: Option<usize>)
        ensures
            match r {
                Some(i) => position(self@.sessions, id@, 0) == Some(i as int) && i
                    < self.sessions@.len() && self.sessions@[i as int].0@ == id@,
                None => position(self@.sessions, id@, 0) is None,
            },
    {
        let mut i: usize = 0;
        while i < self.sessions.len()
            invariant
                i <= self.sessions@.len(),
                position(self@.sessions, id@, 0) == position(self@.sessions, id@, i as int),
            decreases self.sessions@.len() - i,
        {
            if same_id(&self.sessions[i].0, id) {
                return Some(i);
            }
            i += 1;
        }
        None
    }

    fn find_pending(&self, id: &SessionId) -> (r: Option<usize>)
        ensures
            match r {
                Some(i) => position(self@.pending, id@, 0) == Some(i as int) && i
                    < self.pending@.len() && self.pending@[i as int].0@ == id@,
                None => position(self@.pending, id@, 0) is None,
            },
    {
        let mut i: usize = 0;
        while i < self.pending.len()
            invariant
                i <= self.pending@.len(),
                position(self@.pending, id@, 0) == position(self@.pending, id@, i as int),
            decreases self.pending@.len() - i,
        {
            if same_id(&self.pending[i].0, id) {
                return Some(i);
            }
            i += 1;
        }
        None
    }

    /// Handle one inbound datagram from `src`. Malformed/unauthorized packets
    /// are silently dropped.
    pub fn receive(&mut self, src: Addr, buf: &[u8]) -> (r: Received)
        requires
            old(self).wf(),
            buf@.len() + 256 <= usize::MAX,
        ensures
            final(self).wf(),
            match crate::transport::packet_of(buf@) {
                Err(_) => {
                    &&& r matches Received::Replies { out, moved }
                    &&& out@.len() == 0
                    &&& moved is None
                    &&& final(self)@ == old(self)@
                },
                Ok(PacketView::Handshake { id, body }) => {
                    &&& old(self).accepts_what_it_awaits(id, body)
                    &&& r matches Received::Replies { out, moved }
                    &&& handshake_step(
                        old(self)@,
                        old(self).accepts(id, body),
                        src,
                        id,
                        body,
                        final(self)@,
                        crate::server_session::datagrams(out@),
                        match moved {
                            Some(m) => Some(m@),
                            None => None,
                        },
                    )
                },
                Ok(PacketView::Transport { id, .. }) => match old(self)@.session(id) {
                    None => {
                        &&& r matches Received::Replies { out, moved }
                        &&& out@.len() == 0
                        &&& moved is None
                        &&& final(self)@ == old(self)@
                    },
                    Some(s) => match s.session.opened(buf@) {
                        Err(_) => {
                            &&& r matches Received::Replies { out, moved }
                            &&& out@.len() == 0
                            &&& moved is None
                            &&& final(self)@ == old(self)@.with_session(
                                id,
                                ServerSessionView {
                                    session: s.session.after_open(src, buf@),
                                    ..s
                                },
                            )
                        },
                        Ok(fs) => {
                            &&& r matches Received::Frames { session_id, frames }
                            &&& session_id@ == id
                            &&& crate::wire::frame_views(frames@) == fs
                            &&& final(self)@ == old(self)@.with_session(
                                id,
                                ServerSessionView {
                                    session: s.session.after_open(src, buf@),
                                    idle_ticks: 0,
                                    ..s
                                },
                            )
                        },
                    },
                },
            },
    {
        match parse_packet(buf) {
            Err(_) => Received::Replies { out: Vec::new(), moved: None },
            Ok(Packet::Handshake { session_id, body }) => self.handle_handshake(
                src,
                session_id,
                body,
            ),
            Ok(Packet::Transport { session_id, .. }) => self.handle_transport(src, session_id, buf),
        }
    }

    fn handle_transport(&mut self, src: Addr, sid: SessionId, buf: &[u8]) -> (r: Received)
        requires
            old(self).wf(),
        ensures
            final(self).wf(),
            match old(self)@.session(sid@) {
                None => {
                    &&& r matches Received::Replies { out, moved }
                    &&& out@.len() == 0
                    &&& moved is None
                    &&& final(self)@ == old(self)@
                },
                Some(s) => match s.session.opened(buf@) {
                    Err(_) => {
                        &&& r matches Received::Replies { out, moved }
                        &&& out@.len() == 0
                        &&& moved is None
                        &&& final(self)@ == old(self)@.with_session(
                            sid@,
                            ServerSessionView { session: s.session.after_open(src, buf@), ..s },
                        )
                    },
                    Ok(fs) => {
                        &&& r matches Received::Frames { session_id, frames }
                        &&& session_id@ == sid@
                        &&& crate::wire::frame_views(frames@) == fs
                        &&& final(self)@ == old(self)@.with_session(
                            sid@,
                            ServerSessionView {
                                session: s.session.after_open(src, buf@),
                                idle_ticks: 0,
                                ..s
                            },
                        )
                    },
                },
            },
    {
        match self.find(&sid) {
            Some(i) => {
                let ghost before = self.sessions@;
                let opened = self.sessions[i].1.open(src, buf);  // roaming: the peer is now at `src`
                proof {
                    lemma_updated(before, i as int, self.sessions@[i as int].1);
                }
                match opened {
                    Some(frames) => Received::Frames { session_id: sid, frames },
                    None => Received::Replies { out: Vec::new(), moved: None },
                }
            },
            None => Received::Replies { out: Vec::new(), moved: None },
        }
    }

    fn handle_handshake(&mut self, src: Addr, sid: SessionId, body: &[u8]) -> (r: Received)
        requires
            old(self).wf(),
            body@.len() + 256 <= usize::MAX,
        ensures
            final(self).wf(),
            old(self).accepts_what_it_awaits(sid@, body@),
            r matches Received::Replies { out, moved } && handshake_step(
                old(self)@,
                old(self).accepts(sid@, body@),
                src,
                sid@,
                body@,
                final(self)@,
                crate::server_session::datagrams(out@),
                match moved {
                    Some(m) => Some(m@),
                    None => None,
                },
            ),
    {
        let nothing = Received::Replies { out: Vec::new(), moved: None };
        if self.find(&sid).is_some() {
            return nothing;  // already established
        }
        match self.find_pending(&sid) {
            Some(i) => {
                let moved: Option<SessionId> = self.resume(i, src, sid, body);
                Received::Replies { out: Vec::new(), moved }
            },
            None => {
                // New handshake: refuse if we're already tracking too many, to
                // bound memory against a session-id flood; and do not answer a
                // packet with a longer one.
                if self.pending.len() >= MAX_PENDING_HANDSHAKES || body.len()
                    < crate::transport::MIN_HANDSHAKE_INIT - 9 || body.len()
                    > crate::noise::MAX_MESSAGE {
                    return nothing;
                }
                match self.begin(sid, body) {
                    Some(reply) => {
                        let ghost packet = reply@;
                        let mut out: Vec<(Addr, Vec<u8>)> = Vec::new();
                        out.push((src, reply));
                        proof {
                            let sent = crate::server_session::datagrams(out@);
                            assert(sent[0] == (src, packet));
                            let h = choose|h: HandshakerView| #[trigger]
                                answers(h, sid@, body@, packet) && h.noise.private == old(
                                    self,
                                )@.private && self@ == (ServerView {
                                    pending: old(self)@.pending.push((sid@, h)),
                                    ..old(self)@
                                });
                            assert(answers(h, sid@, body@, sent[0].1));
                        }
                        Received::Replies { out, moved: None }
                    },
                    None => nothing,
                }
            },
        }
    }

    /// Begin a handshake; returns the answer, if there is randomness to make one.
    fn begin(&mut self, sid: SessionId, body: &[u8]) -> (r: Option<Vec<u8>>)
        requires
            old(self).wf(),
            body@.len() + 256 <= usize::MAX,
            position(old(self)@.pending, sid@, 0) is None,
            old(self)@.pending.len() < MAX_PENDING_HANDSHAKES,
            crate::noise::KEY_LEN <= body@.len() <= crate::noise::MAX_MESSAGE,
        ensures
            final(self).wf(),
            match r {
                None => final(self)@ == old(self)@,
                Some(p) => exists|h: HandshakerView| #[trigger]
                    answers(h, sid@, body@, p@) && h.noise.private == old(self)@.private
                        && final(self)@ == (ServerView {
                        pending: old(self)@.pending.push((sid@, h)),
                        ..old(self)@
                    }),
            },
    {
        match Handshaker::server(self.keypair.private.as_slice(), sid) {
            Ok(hs) => {
                let mut hs: Handshaker = hs;
                let read: Result<HsOutcome, HandshakeError> = hs.read(body);
                let ghost h = hs@;
                assert(read matches Ok(o) ==> o.reply matches Some(p) && answers(
                    h,
                    sid@,
                    body@,
                    p@,
                ));
                self.keep_begun(sid, hs, read)
            },
            Err(_) => None,
        }
    }

    /// Keep a new handshake if it has answered the client's first message, and
    /// return the answer. `read` is what reading that message came to; a
    /// handshake that could not answer, as there was no randomness to be had, is
    /// dropped.
    fn keep_begun(
        &mut self,
        sid: SessionId,
        hs: Handshaker,
        read: Result<HsOutcome, HandshakeError>,
    ) -> (r: Option<Vec<u8>>)
        requires
            old(self).wf(),
            position(old(self)@.pending, sid@, 0) is None,
            old(self)@.pending.len() < MAX_PENDING_HANDSHAKES,
            hs.wf(),
            read is Ok ==> awaits_last(hs@, sid@),
        ensures
            final(self).wf(),
            match read {
                Ok(HsOutcome { reply: Some(p), .. }) => {
                    &&& r matches Some(x) && x@ == p@
                    &&& final(self)@ == (ServerView {
                        pending: old(self)@.pending.push((sid@, hs@)),
                        ..old(self)@
                    })
                },
                _ => r is None && final(self)@ == old(self)@,
            },
    {
        let ghost v0 = self@;
        let ghost before = self.pending@;
        match read {
            Ok(HsOutcome { reply: Some(reply), .. }) => {
                let ghost h = hs@;
                self.pending.push((sid, hs));
                proof {
                    assert(pending_views(self.pending@) =~= v0.pending.push((sid@, h)));
                    lemma_distinct_push(v0.pending, sid@, h);
                    assert forall|i: int| 0 <= i < self@.pending.len() implies awaits_last(
                        (#[trigger] self@.pending[i]).1,
                        self@.pending[i].0,
                    ) by {
                        if i < before.len() {
                            assert(self@.pending[i] == v0.pending[i]);
                        }
                    }
                }
                Some(reply)
            },
            _ => None,
        }
    }

    /// Go on with a pending handshake; returns the session whose shell was
    /// moved.
    fn resume(&mut self, i: usize, src: Addr, sid: SessionId, body: &[u8]) -> (r: Option<SessionId>)
        requires
            old(self).wf(),
            body@.len() + 256 <= usize::MAX,
            position(old(self)@.pending, sid@, 0) == Some(i as int),
            i < old(self)@.pending.len(),
            old(self)@.pending[i as int].0 == sid@,
            position(old(self)@.sessions, sid@, 0) is None,
        ensures
            final(self).wf(),
            old(self).accepts_what_it_awaits(sid@, body@),
            ({
                let h0 = old(self)@.pending[i as int].1;
                let moved = match r {
                    Some(m) => Some(m@),
                    None => None,
                };
                if old(self).accepts(sid@, body@) {
                    exists|h: HandshakerView| #[trigger]
                        finishes(h0, h, body@) && final(self)@ == (ServerView {
                            pending: old(self)@.pending.remove(i as int),
                            ..old(self)@
                        }).admitted(sid@, h, src) && moved == old(self)@.moved(h)
                } else {
                    &&& moved is None
                    &&& exists|h: HandshakerView| #[trigger]
                        crate::handshake::refused(h0, h) && final(self)@ == (ServerView {
                            pending: old(self)@.pending.update(i as int, (sid@, h)),
                            ..old(self)@
                        })
                }
            }),
    {
        let ghost v0 = self@;
        let ghost before = self.pending@;
        let ghost h0 = v0.pending[i as int].1;
        proof {
            assert(awaits_last(v0.pending[i as int].1, v0.pending[i as int].0));
        }
        let read = self.pending[i].1.read(body);
        if read.is_err() {
            // The session id is plaintext, so anyone can send a packet with it:
            // what does not belong to the handshake must not end it.
            proof {
                let h = self.pending@[i as int].1@;
                assert(crate::handshake::refused(h0, h));
                assert(pending_views(self.pending@) =~= v0.pending.update(i as int, (sid@, h)));
                assert(distinct(self@.pending)) by {
                    assert forall|a: int, b: int| 0 <= a < b < self@.pending.len() implies (
                    #[trigger] self@.pending[a]).0 != (#[trigger] self@.pending[b]).0 by {
                        assert(self@.pending[a].0 == v0.pending[a].0);
                        assert(self@.pending[b].0 == v0.pending[b].0);
                    }
                }
                assert forall|k: int| 0 <= k < self@.pending.len() implies awaits_last(
                    (#[trigger] self@.pending[k]).1,
                    self@.pending[k].0,
                ) by {
                    if k != i {
                        assert(self@.pending[k] == v0.pending[k]);
                    }
                }
            }
            return None;
        }
        let (_, hs) = self.pending.remove(i);
        let ghost h = hs@;
        proof {
            assert(finishes(h0, h, body@));
            assert(pending_views(self.pending@) =~= v0.pending.remove(i as int));
            lemma_distinct_remove(v0.pending, i as int);
            assert forall|k: int| 0 <= k < self@.pending.len() implies awaits_last(
                (#[trigger] self@.pending[k]).1,
                self@.pending[k].0,
            ) by {
                let k0 = if k < i {
                    k
                } else {
                    k + 1
                };
                assert(self@.pending[k] == v0.pending[k0]);
            }
        }
        self.establish(src, sid, hs)
    }

    /// Establish the session of a finished handshake, if its client is
    /// authorized; returns the session whose shell was moved.
    fn establish(&mut self, src: Addr, sid: SessionId, hs: Handshaker) -> (r: Option<SessionId>)
        requires
            old(self).wf(),
            hs.wf(),
            hs@.finished,
            hs@.id == sid@,
            !hs@.noise.initiator,
            hs@.noise.remote is Some,
            position(old(self)@.sessions, sid@, 0) is None,
        ensures
            final(self).wf(),
            final(self)@ == old(self)@.admitted(sid@, hs@, src),
            match r {
                Some(m) => old(self)@.moved(hs@) == Some(m@),
                None => old(self)@.moved(hs@) is None,
            },
    {
        let ghost v0 = self@;
        // Authorize the authenticated client key BEFORE any session/pty work.
        let client_static: Vec<u8> = match hs.remote_static() {
            Some(k) => k,
            None => return None,
        };
        if !authorize_client(&self.authorized, client_static.as_slice()) {
            return None;  // reject: no session created
        }
        let session = match hs.into_session(Some(src)) {
            Ok(s) => s,
            Err(_) => return None,
        };
        // Reattach: if this client key already has a live session (its previous
        // connection went silent but the shell is still running), move that
        // running shell/pty onto the new transport session and resend the screen
        // as a full snapshot. Only reattach to a session that actually has a
        // running shell/pty; never steal another still-establishing session for
        // the same key.
        let existing: Option<usize> = self.find_running(client_static.as_slice());
        let mut fresh: ServerSession = ServerSession::new(session, client_static);
        self.ever_active = true;
        match existing {
            Some(i) => {
                let (old_sid, old_session) = self.sessions.remove(i);
                proof {
                    assert(session_views(self.sessions@) =~= v0.sessions.remove(i as int));
                    lemma_distinct_remove(v0.sessions, i as int);
                }
                fresh.take_over(old_session);
                self.push_session(sid, fresh);
                Some(old_sid)
            },
            None => {
                self.push_session(sid, fresh);
                None
            },
        }
    }

    fn push_session(&mut self, sid: SessionId, s: ServerSession)
        requires
            old(self).wf(),
            s.wf(),
            position(old(self)@.sessions, sid@, 0) is None,
        ensures
            final(self).wf(),
            final(self)@ == (ServerView {
                sessions: old(self)@.sessions.push((sid@, s@)),
                ..old(self)@
            }),
    {
        let ghost v0 = self@;
        self.sessions.push((sid, s));
        proof {
            assert(session_views(self.sessions@) =~= v0.sessions.push((sid@, s@)));
            lemma_distinct_push(v0.sessions, sid@, s@);
        }
    }

    fn find_running(&self, key: &[u8]) -> (r: Option<usize>)
        ensures
            match r {
                Some(i) => running_for(self@.sessions, key@, 0) == Some(i as int) && i
                    < self.sessions@.len() && self.sessions@[i as int].1@.exit_status is None,
                None => running_for(self@.sessions, key@, 0) is None,
            },
    {
        let mut i: usize = 0;
        while i < self.sessions.len()
            invariant
                i <= self.sessions@.len(),
                running_for(self@.sessions, key@, 0) == running_for(
                    self@.sessions,
                    key@,
                    i as int,
                ),
            decreases self.sessions@.len() - i,
        {
            if self.sessions[i].1.runs_for(key) {
                return Some(i);
            }
            i += 1;
        }
        None
    }

    /// Process one frame of a session: what to answer, and what it asks of the
    /// pty.
    pub fn handle_frame(&mut self, sid: &SessionId, frame: Frame) -> (r: (
        Option<Frame>,
        PtyAction,
    ))
        requires
            old(self).wf(),
        ensures
            final(self).wf(),
            final(self)@ == old(self)@.after_frame(sid@, frame@),
            match old(self)@.session(sid@) {
                Some(s) => {
                    &&& match s.frame_reply(frame@) {
                        Some(f) => r.0 matches Some(x) && x@ == f,
                        None => r.0 is None,
                    }
                    &&& r.1@ == s.frame_action(frame@)
                },
                None => r.0 is None && r.1@ == PtyActionView::Nothing,
            },
    {
        let i: usize = match self.find(sid) {
            Some(i) => i,
            None => return (None, PtyAction::Nothing),
        };
        let ghost v0 = self@;
        let ghost f = frame@;
        let request: Option<(u16, String)> = forward_request(&frame);
        let ghost before = self.sessions@;
        let r = self.sessions[i].1.handle_frame(frame);
        proof {
            lemma_updated(before, i as int, self.sessions@[i as int].1);
        }
        if let Some((port, target)) = request {
            let ghost asked = self.remote_forward_requests@;
            let ghost t = target@;
            self.remote_forward_requests.push((*sid, port, target));
            assert(forward_views(self.remote_forward_requests@) =~= forward_views(asked).push(
                (sid@, port, t),
            ));
        }
        r
    }

    /// Whether shells are started as another user than the server's own. The server
    /// then does nothing else on a client's behalf that the user may not do.
    pub fn drops_privileges(&self) -> (r: bool)
        ensures
            r == (self@.user is Some),
    {
        self.user.is_some()
    }

    /// The request with which a shell is started for a session. Where there is a
    /// socket to the client's agent, the shell is told of it, unless it runs as
    /// another user.
    pub fn spawn_request(
        &self,
        cols: u16,
        rows: u16,
        term: String,
        agent: Option<String>,
    ) -> (r: SpawnRequest)
        ensures
            match self@.user {
                Some(u) => r.user matches Some(x) && x@ == u,
                None => r.user is None,
            },
            match self@.command {
                Some(c) => r.command matches Some(x) && crate::login::texts(x@) == c,
                None => r.command is None,
            },
            match agent {
                Some(place) => if self@.user is Some {
                    r.env@.len() == 0
                } else {
                    &&& r.env@.len() == 1
                    &&& r.env@[0].0@ == "SSH_AUTH_SOCK"@
                    &&& r.env@[0].1@ == place@
                },
                None => r.env@.len() == 0,
            },
            r.term@ == term@,
            r.rows == rows,
            r.cols == cols,
    {
        let user: Option<String> = match &self.user {
            Some(u) => Some(u.as_str().to_owned()),
            None => None,
        };
        let command: Option<Vec<String>> = match &self.command {
            Some(c) => Some(copy_texts(c)),
            None => None,
        };
        let mut env: Vec<(String, String)> = Vec::new();
        if user.is_none() {
            if let Some(place) = agent {
                env.push(("SSH_AUTH_SOCK".to_owned(), place));
            }
        }
        SpawnRequest { user, command, env, term, rows, cols }
    }

    /// A shell was started for a session.
    pub fn on_spawned(&mut self, sid: &SessionId, cols: u16, rows: u16)
        requires
            old(self).wf(),
        ensures
            final(self).wf(),
            final(self)@ == match old(self)@.session(sid@) {
                Some(s) => if s.exit_status is None {
                    old(self)@.with_session(sid@, s.spawned(rows, cols))
                } else {
                    old(self)@
                },
                None => old(self)@,
            },
    {
        if let Some(i) = self.find(sid) {
            if !self.sessions[i].1.has_exited() {
                let ghost before = self.sessions@;
                self.sessions[i].1.on_spawned(rows, cols);
                proof {
                    lemma_updated(before, i as int, self.sessions@[i as int].1);
                }
            }
        }
    }

    /// All frames of a packet have been processed: send the replies.
    pub fn finish_packet(&mut self, sid: &SessionId, replies: &[Frame]) -> (out: Vec<
        (Addr, Vec<u8>),
    >)
        requires
            old(self).wf(),
        ensures
            final(self).wf(),
            final(self)@ == old(self)@.after_replies(sid@, crate::wire::frame_views(replies@)),
            crate::server_session::datagrams(out@) == old(self)@.replies_sent(
                sid@,
                crate::wire::frame_views(replies@),
            ),
    {
        let ghost v0 = self@;
        let mut out: Vec<(Addr, Vec<u8>)> = Vec::new();
        assert(crate::server_session::datagrams(out@) =~= Seq::<(Addr, Seq<u8>)>::empty());
        if let Some(i) = self.find(sid) {
            let ghost before = self.sessions@;
            let evs: Vec<StreamEvent> = self.sessions[i].1.take_events();
            let ghost s1 = self.sessions@[i as int].1;
            if replies.len() > 0 {
                proof {
                    s1.lemma_view_wf();
                }
                self.sessions[i].1.send(replies, &mut out);
                proof {
                    self.sessions@[i as int].1.lemma_goes_on();
                    assert(Seq::<(Addr, Seq<u8>)>::empty() + s1@.all_sent(
                        crate::wire::frame_views(replies@),
                    ) =~= s1@.all_sent(crate::wire::frame_views(replies@)));
                }
            }
            proof {
                assert(self.sessions@ =~= before.update(
                    i as int,
                    (before[i as int].0, self.sessions@[i as int].1),
                ));
                lemma_updated(before, i as int, self.sessions@[i as int].1);
            }
            self.push_events(*sid, evs);
        }
        out
    }

    fn push_events(&mut self, sid: SessionId, evs: Vec<StreamEvent>)
        requires
            old(self).wf(),
        ensures
            final(self).wf(),
            final(self)@ == (ServerView {
                events: old(self)@.events + tagged(sid@, crate::stream::event_views(evs@)),
                ..old(self)@
            }),
    {
        let ghost e0 = self@.events;
        let ghost all = tagged(sid@, crate::stream::event_views(evs@));
        let mut rest: Vec<StreamEvent> = evs;
        assert(e0 + all.take(0) =~= e0);
        assert(all.skip(0) =~= all);
        while rest.len() > 0
            invariant
                self.wf(),
                self@ == (ServerView { events: self@.events, ..old(self)@ }),
                rest@.len() <= all.len(),
                tagged(sid@, crate::stream::event_views(rest@)) == all.skip(
                    all.len() - rest@.len(),
                ),
                self@.events == e0 + all.take(all.len() - rest@.len()),
            decreases rest@.len(),
        {
            let ghost i = all.len() - rest@.len();
            let ghost left = tagged(sid@, crate::stream::event_views(rest@));
            let ghost have = self.stream_events@;
            let ev: StreamEvent = rest.remove(0);
            let ghost e = (sid@, ev@);
            self.stream_events.push((sid, ev));
            proof {
                assert(left[0] == e);
                assert(all[i] == left[0]);
                assert(event_views(self.stream_events@) =~= event_views(have).push(e));
                assert(tagged(sid@, crate::stream::event_views(rest@)) =~= left.skip(1));
                assert(left.skip(1) =~= all.skip(i + 1));
                assert(e0 + all.take(i + 1) =~= (e0 + all.take(i)).push(e));
            }
        }
        assert(all.take(all.len() as int) =~= all);
    }

    /// The shell of a session put out bytes. Returns what its terminal answers
    /// it.
    pub fn feed_output(&mut self, sid: &SessionId, bytes: &[u8]) -> (reply: Vec<u8>)
        requires
            old(self).wf(),
        ensures
            final(self).wf(),
            match old(self)@.session(sid@) {
                Some(s) => {
                    &&& final(self)@ == old(self)@.with_session(sid@, s.fed(bytes@))
                    &&& reply@ == s.answer(bytes@)
                },
                None => final(self)@ == old(self)@ && reply@.len() == 0,
            },
    {
        match self.find(sid) {
            Some(i) => {
                let ghost before = self.sessions@;
                let reply: Vec<u8> = self.sessions[i].1.feed_output(bytes);
                proof {
                    lemma_updated(before, i as int, self.sessions@[i as int].1);
                }
                reply
            },
            None => Vec::new(),
        }
    }

    /// Emit state diffs, stream frames and exit notices, and reclaim sessions
    /// that are over. `exits` says which shells have ended, and how. Returns the
    /// datagrams to send, and the sessions whose pty is to be killed.
    #[verifier::rlimit(40)]
    pub fn tick(&mut self, exits: &Vec<(SessionId, i32)>) -> (r: (
        Vec<(Addr, Vec<u8>)>,
        Vec<SessionId>,
    ))
        requires
            old(self).wf(),
        ensures
            final(self).wf(),
            final(self)@ == old(self)@.after_tick(exit_views(exits@)),
            ({
                let t = ticked_all(
                    old(self)@.sessions,
                    exit_views(exits@),
                    old(self)@.sessions.len() as int,
                );
                &&& crate::server_session::datagrams(r.0@) == t.out
                &&& id_views(r.1@) == t.killed
            }),
    {
        let ghost v0 = self@;
        let ghost ex = exit_views(exits@);
        let ghost all = v0.sessions;
        let mut out: Vec<(Addr, Vec<u8>)> = Vec::new();
        let mut killed: Vec<SessionId> = Vec::new();
        let mut rest: Vec<(SessionId, ServerSession)> = Vec::new();
        std::mem::swap(&mut rest, &mut self.sessions);
        proof {
            assert(session_views(self.sessions@) =~= Seq::<(Seq<u8>, ServerSessionView)>::empty());
            assert(all.skip(0) =~= all);
            assert(crate::server_session::datagrams(out@) =~= Seq::<(Addr, Seq<u8>)>::empty());
            assert(id_views(killed@) =~= Seq::<Seq<u8>>::empty());
            assert(v0.events + Seq::<TaggedEvent>::empty() =~= v0.events);
        }
        while rest.len() > 0
            invariant
                ex == exit_views(exits@),
                all == v0.sessions,
                distinct(all),
                rest@.len() <= all.len(),
                session_views(rest@) == all.skip(all.len() - rest@.len()),
                forall|k: int| 0 <= k < rest@.len() ==> (#[trigger] rest@[k]).1.wf(),
                self.wf(),
                ({
                    let t = ticked_all(all, ex, all.len() - rest@.len());
                    &&& self@ == (ServerView {
                        sessions: t.kept,
                        events: v0.events + t.events,
                        ..v0
                    })
                    &&& crate::server_session::datagrams(out@) == t.out
                    &&& id_views(killed@) == t.killed
                    &&& kept_before(t.kept, all, all.len() - rest@.len())
                }),
            decreases rest@.len(),
        {
            let ghost n = all.len() - rest@.len();
            let ghost left = session_views(rest@);
            let ghost t = ticked_all(all, ex, n);
            let ghost rest0 = rest@;
            let (sid, sess) = rest.remove(0);
            let mut sess: ServerSession = sess;
            let ghost s0 = sess@;
            proof {
                assert(left[0] == all[n]);
                assert(session_views(rest@) =~= left.skip(1));
                assert(left.skip(1) =~= all.skip(n + 1));
                assert forall|k: int| 0 <= k < rest@.len() implies (#[trigger] rest@[k]).1.wf() by {
                    assert(rest@[k] == rest0[k + 1]);
                }
            }
            let exit: Option<i32> = find_exit(exits, &sid);
            let outcome: TickOutcome = sess.tick(exit, &mut out);
            if outcome.kill {
                let ghost had = killed@;
                killed.push(sid);
                assert(id_views(killed@) =~= id_views(had).push(sid@));
            }
            let ghost now = sess@;
            if !outcome.finished {
                proof {
                    lemma_not_kept(t.kept, all, n, sid@);
                }
                self.push_session(sid, sess);
            }
            self.push_events(sid, outcome.events);
            proof {
                let tn = s0.ticked(exit_of(ex, sid@));
                assert(v0.events + t.events + tagged(sid@, tn.events) =~= v0.events + (t.events
                    + tagged(sid@, tn.events)));
                lemma_kept(t.kept, all, n, now);
            }
        }
        (out, killed)
    }

    // --- reliable streams (port forwarding) ---

    /// Drain stream lifecycle events (tagged by session).
    pub fn take_stream_events(&mut self) -> (evs: Vec<(SessionId, StreamEvent)>)
        requires
            old(self).wf(),
        ensures
            final(self).wf(),
            event_views(evs@) == old(self)@.events,
            final(self)@ == (ServerView { events: Seq::empty(), ..old(self)@ }),
    {
        let mut evs: Vec<(SessionId, StreamEvent)> = Vec::new();
        std::mem::swap(&mut evs, &mut self.stream_events);
        assert(event_views(self.stream_events@) =~= Seq::<TaggedEvent>::empty());
        evs
    }

    /// Drain pending remote-forward (`-R`) listen requests for the driver to
    /// open TCP listeners for.
    pub fn take_remote_forward_requests(&mut self) -> (r: Vec<(SessionId, u16, String)>)
        requires
            old(self).wf(),
        ensures
            final(self).wf(),
            forward_views(r@) == old(self)@.forwards,
            final(self)@ == (ServerView { forwards: Seq::empty(), ..old(self)@ }),
    {
        let mut r: Vec<(SessionId, u16, String)> = Vec::new();
        std::mem::swap(&mut r, &mut self.remote_forward_requests);
        assert(forward_views(self.remote_forward_requests@) =~= Seq::<ForwardRequest>::empty());
        r
    }

    /// Read available contiguous bytes from a stream within a session.
    pub fn stream_read(&mut self, sid: &SessionId, id: u64) -> (out: Vec<u8>)
        requires
            old(self).wf(),
        ensures
            final(self).wf(),
            match old(self)@.session(sid@) {
                Some(s) => {
                    &&& out@ == s.mux.readable(id)
                    &&& final(self)@ == old(self)@.with_session(
                        sid@,
                        ServerSessionView { mux: s.mux.after_read(id), ..s },
                    )
                },
                None => out@.len() == 0 && final(self)@ == old(self)@,
            },
    {
        match self.find(sid) {
            Some(i) => {
                let ghost before = self.sessions@;
                let out: Vec<u8> = self.sessions[i].1.stream_read(id);
                proof {
                    lemma_updated(before, i as int, self.sessions@[i as int].1);
                }
                out
            },
            None => Vec::new(),
        }
    }

    /// Queue bytes to send on a stream within a session.
    pub fn stream_write(&mut self, sid: &SessionId, id: u64, data: &[u8])
        requires
            old(self).wf(),
        ensures
            final(self).wf(),
            final(self)@ == match old(self)@.session(sid@) {
                Some(s) => old(self)@.with_session(
                    sid@,
                    ServerSessionView { mux: s.mux.written(id, data@), ..s },
                ),
                None => old(self)@,
            },
    {
        if let Some(i) = self.find(sid) {
            let ghost before = self.sessions@;
            self.sessions[i].1.stream_write(id, data);
            proof {
                lemma_updated(before, i as int, self.sessions@[i as int].1);
            }
        }
    }

    /// Close our send half of a stream within a session.
    pub fn stream_close(&mut self, sid: &SessionId, id: u64)
        requires
            old(self).wf(),
        ensures
            final(self).wf(),
            final(self)@ == match old(self)@.session(sid@) {
                Some(s) => old(self)@.with_session(
                    sid@,
                    ServerSessionView { mux: s.mux.closed(id, 0), ..s },
                ),
                None => old(self)@,
            },
    {
        if let Some(i) = self.find(sid) {
            let ghost before = self.sessions@;
            self.sessions[i].1.stream_close(id);
            proof {
                lemma_updated(before, i as int, self.sessions@[i as int].1);
            }
        }
    }

    /// Close our send half of a stream within a session, with the exit status of
    /// the command that ran on it.
    pub fn stream_end(&mut self, sid: &SessionId, id: u64, status: i32)
        requires
            old(self).wf(),
        ensures
            final(self).wf(),
            final(self)@ == match old(self)@.session(sid@) {
                Some(s) => old(self)@.with_mux(sid@, s.mux.closed(id, status)),
                None => old(self)@,
            },
    {
        if let Some(i) = self.find(sid) {
            let ghost before = self.sessions@;
            self.sessions[i].1.stream_end(id, status);
            proof {
                lemma_updated(before, i as int, self.sessions@[i as int].1);
            }
        }
    }

    /// Open the stream that carries what a command of a session writes to its
    /// standard error; returns its id.
    pub fn open_errors(&mut self, sid: &SessionId) -> (r: Option<u64>)
        requires
            old(self).wf(),
        ensures
            final(self).wf(),
            match old(self)@.session(sid@) {
                Some(s) => {
                    &&& r == Some(s.mux.next_local_id)
                    &&& final(self)@ == old(self)@.with_mux(
                        sid@,
                        s.mux.after_open(StreamKind::Session, Seq::empty()),
                    )
                },
                None => r is None && final(self)@ == old(self)@,
            },
    {
        match self.find(sid) {
            Some(i) => {
                let ghost before = self.sessions@;
                let id: u64 = self.sessions[i].1.open_errors();
                proof {
                    lemma_updated(before, i as int, self.sessions@[i as int].1);
                }
                Some(id)
            },
            None => None,
        }
    }

    /// Open a stream of a session to the client's agent; returns its id.
    pub fn open_agent(&mut self, sid: &SessionId) -> (r: Option<u64>)
        requires
            old(self).wf(),
        ensures
            final(self).wf(),
            match old(self)@.session(sid@) {
                Some(s) => {
                    &&& r == Some(s.mux.next_local_id)
                    &&& final(self)@ == old(self)@.with_mux(
                        sid@,
                        s.mux.after_open(StreamKind::Agent, Seq::empty()),
                    )
                },
                None => r is None && final(self)@ == old(self)@,
            },
    {
        match self.find(sid) {
            Some(i) => {
                let ghost before = self.sessions@;
                let id: u64 = self.sessions[i].1.open_agent();
                proof {
                    lemma_updated(before, i as int, self.sessions@[i as int].1);
                }
                Some(id)
            },
            None => None,
        }
    }

    /// Abort a stream within a session (signals failure to the peer).
    pub fn stream_reset(&mut self, sid: &SessionId, id: u64)
        requires
            old(self).wf(),
        ensures
            final(self).wf(),
            final(self)@ == match old(self)@.session(sid@) {
                Some(s) => old(self)@.with_session(
                    sid@,
                    ServerSessionView { mux: s.mux.aborted(id), ..s },
                ),
                None => old(self)@,
            },
    {
        if let Some(i) = self.find(sid) {
            let ghost before = self.sessions@;
            self.sessions[i].1.stream_reset(id);
            proof {
                lemma_updated(before, i as int, self.sessions@[i as int].1);
            }
        }
    }

    /// Open a forward stream from the server side (used by remote `-R`
    /// forwarding); returns the new stream id.
    pub fn open_forward(&mut self, sid: &SessionId, target: &str) -> (r: Option<u64>)
        requires
            old(self).wf(),
        ensures
            final(self).wf(),
            match old(self)@.session(sid@) {
                Some(s) => {
                    &&& r == Some(s.mux.next_local_id)
                    &&& final(self)@ == old(self)@.with_session(
                        sid@,
                        ServerSessionView {
                            mux: s.mux.after_open(
                                StreamKind::Forward,
                                vstd::utf8::encode_utf8(target@),
                            ),
                            ..s
                        },
                    )
                },
                None => r is None && final(self)@ == old(self)@,
            },
    {
        match self.find(sid) {
            Some(i) => {
                let ghost before = self.sessions@;
                let id: u64 = self.sessions[i].1.open_forward(target);
                proof {
                    lemma_updated(before, i as int, self.sessions@[i as int].1);
                }
                Some(id)
            },
            None => None,
        }
    }

    /// Whether a session still exists (for the driver to prune `-R` listeners).
    pub fn has_session(&self, sid: &SessionId) -> (r: bool)
        ensures
            r == (self@.session(sid@) is Some),
    {
        self.find(sid).is_some()
    }

    /// Bytes written to a stream but not yet acked (driver backpressure).
    pub fn stream_in_flight(&self, sid: &SessionId, id: u64) -> (r: u64)
        requires
            self.wf(),
        ensures
            r == match self@.session(sid@) {
                Some(s) => s.mux.in_flight(id),
                None => 0,
            },
    {
        match self.find(sid) {
            Some(i) => self.sessions[i].1.mux().in_flight(id),
            None => 0,
        }
    }

    /// True once the peer closed its send half and we've read every byte.
    pub fn stream_recv_finished(&self, sid: &SessionId, id: u64) -> (r: bool)
        requires
            self.wf(),
        ensures
            r == match self@.session(sid@) {
                Some(s) => s.mux.recv_finished(id),
                None => true,
            },
    {
        match self.find(sid) {
            Some(i) => self.sessions[i].1.mux().is_recv_finished(id),
            None => true,
        }
    }
}

/// The sessions kept come from the first `n`, in order.
spec fn kept_before(
    kept: Seq<(Seq<u8>, ServerSessionView)>,
    all: Seq<(Seq<u8>, ServerSessionView)>,
    n: int,
) -> bool {
    forall|k: int|
        0 <= k < kept.len() ==> exists|i: int|
            0 <= i < n && (#[trigger] all[i]).0 == (#[trigger] kept[k]).0
}

proof fn lemma_not_kept(
    kept: Seq<(Seq<u8>, ServerSessionView)>,
    all: Seq<(Seq<u8>, ServerSessionView)>,
    n: int,
    id: Seq<u8>,
)
    requires
        kept_before(kept, all, n),
        distinct(all),
        0 <= n < all.len(),
        all[n].0 == id,
    ensures
        position(kept, id, 0) is None,
{
    lemma_position(kept, id, 0);
    if let Some(k) = position(kept, id, 0) {
        let i = choose|i: int| 0 <= i < n && (#[trigger] all[i]).0 == kept[k].0;
        assert(all[i].0 != all[n].0);
    }
}

proof fn lemma_kept(
    kept: Seq<(Seq<u8>, ServerSessionView)>,
    all: Seq<(Seq<u8>, ServerSessionView)>,
    n: int,
    s: ServerSessionView,
)
    requires
        kept_before(kept, all, n),
        0 <= n < all.len(),
    ensures
        kept_before(kept, all, n + 1),
        kept_before(kept.push((all[n].0, s)), all, n + 1),
{
    let more = kept.push((all[n].0, s));
    assert forall|k: int| 0 <= k < more.len() implies exists|i: int|
        0 <= i < n + 1 && (#[trigger] all[i]).0 == (#[trigger] more[k]).0 by {
        if k < kept.len() {
            assert(more[k] == kept[k]);
            let i = choose|i: int| 0 <= i < n && (#[trigger] all[i]).0 == kept[k].0;
            assert(all[i].0 == more[k].0);
        } else {
            assert(all[n].0 == more[k].0);
        }
    }
    assert forall|k: int| 0 <= k < kept.len() implies exists|i: int|
        0 <= i < n + 1 && (#[trigger] all[i]).0 == (#[trigger] kept[k]).0 by {
        let i = choose|i: int| 0 <= i < n && (#[trigger] all[i]).0 == kept[k].0;
        assert(all[i].0 == kept[k].0);
    }
}

fn find_exit(exits: &Vec<(SessionId, i32)>, id: &SessionId) -> (r: Option<i32>)
    ensures
        r == exit_of(exit_views(exits@), id@),
{
    let ghost ex = exit_views(exits@);
    let mut i: usize = 0;
    while i < exits.len()
        invariant
            i <= exits@.len(),
            ex == exit_views(exits@),
            position(ex, id@, 0) == position(ex, id@, i as int),
        decreases exits@.len() - i,
    {
        if same_id(&exits[i].0, id) {
            return Some(exits[i].1);
        }
        i += 1;
    }
    None
}

fn forward_request(frame: &Frame) -> (r: Option<(u16, String)>)
    ensures
        match crate::server_session::control_of(frame@) {
            Some(ControlView::RemoteForward { bind_port, target }) => r matches Some(x) && x.0
                == bind_port && x.1@ == target,
            _ => r is None,
        },
{
    match frame {
        Frame::Control { data } => match ControlMsg::decode(data.as_slice()) {
            Ok(ControlMsg::RemoteForward { bind_port, target }) => Some((bind_port, target)),
            _ => None,
        },
        _ => None,
    }
}

fn copy_texts(v: &Vec<String>) -> (r: Vec<String>)
    ensures
        crate::login::texts(r@) == crate::login::texts(v@),
{
    let mut r: Vec<String> = Vec::new();
    let mut i: usize = 0;
    while i < v.len()
        invariant
            i <= v@.len(),
            r@.len() == i,
            forall|j: int| 0 <= j < i ==> (#[trigger] r@[j])@ == v@[j]@,
        decreases v@.len() - i,
    {
        r.push(v[i].as_str().to_owned());
        i += 1;
    }
    assert(crate::login::texts(r@) =~= crate::login::texts(v@));
    r
}

proof fn lemma_updated(before: Seq<(SessionId, ServerSession)>, i: int, s: ServerSession)
    requires
        0 <= i < before.len(),
    ensures
        session_views(before.update(i, (before[i].0, s))) == session_views(before).update(
            i,
            (before[i].0@, s@),
        ),
        distinct(session_views(before)) ==> distinct(
            session_views(before).update(i, (before[i].0@, s@)),
        ),
{
    let after = session_views(before).update(i, (before[i].0@, s@));
    assert(session_views(before.update(i, (before[i].0, s))) =~= after);
    if distinct(session_views(before)) {
        assert forall|a: int, b: int| 0 <= a < b < after.len() implies (#[trigger] after[a]).0 != (
        #[trigger] after[b]).0 by {
            assert(after[a].0 == session_views(before)[a].0);
            assert(after[b].0 == session_views(before)[b].0);
        }
    }
}

/// The streams of a session are what they were last made.
pub proof fn lemma_with_mux(v: ServerView, id: Seq<u8>)
    ensures
        v.session(id) matches Some(s) ==> {
            &&& v.with_mux(id, s.mux) == v
            &&& forall|m: MuxView| #[trigger]
                v.with_mux(id, m).session(id) == Some(ServerSessionView { mux: m, ..s })
            &&& forall|m: MuxView, n: MuxView| #[trigger]
                v.with_mux(id, m).with_mux(id, n) == v.with_mux(id, n)
        },
{
    if let Some(s) = v.session(id) {
        lemma_position(v.sessions, id, 0);
        let i = position(v.sessions, id, 0).unwrap();
        assert(v.sessions.update(i, (id, s)) =~= v.sessions);
        assert forall|m: MuxView| #[trigger]
            v.with_mux(id, m).session(id) == Some(ServerSessionView { mux: m, ..s }) by {
            lemma_position_update(v.sessions, i, id, ServerSessionView { mux: m, ..s }, 0);
        }
        assert forall|m: MuxView, n: MuxView| #[trigger]
            v.with_mux(id, m).with_mux(id, n) == v.with_mux(id, n) by {
            let a = ServerSessionView { mux: m, ..s };
            let b = ServerSessionView { mux: n, ..s };
            lemma_position_update(v.sessions, i, id, a, 0);
            assert(v.sessions.update(i, (id, a)).update(i, (id, b)) =~= v.sessions.update(
                i,
                (id, b),
            ));
        }
    }
}

proof fn lemma_position_update(
    entries: Seq<(Seq<u8>, ServerSessionView)>,
    i: int,
    id: Seq<u8>,
    s: ServerSessionView,
    from: int,
)
    requires
        0 <= from,
        position(entries, id, from) == Some(i),
    ensures
        position(entries.update(i, (id, s)), id, from) == Some(i),
    decreases entries.len() - from,
{
    lemma_position(entries, id, from);
    if from < i {
        lemma_position_update(entries, i, id, s, from + 1);
    }
}

// ---------------------------------------------------------------------------
// Laws
// ---------------------------------------------------------------------------

/// A client whose key is not authorized gets no session, however its handshake
/// went: nothing is established and no shell is moved.
pub proof fn law_unauthorized_gets_nothing(
    v: ServerView,
    id: Seq<u8>,
    h: HandshakerView,
    src: Addr,
)
    requires
        h.noise.remote is Some,
        !crate::proto::is_authorized(v.authorized, h.noise.remote.unwrap()),
    ensures
        v.admitted(id, h, src) == v,
        v.moved(h) is None,
{
}

/// A client whose key is authorized gets a session with its key, at the address
/// that it came from. A shell that runs for it is moved there and not
/// duplicated: there are as many sessions as before, and the one that it was
/// moved from is gone. Otherwise there is one more.
pub proof fn law_authorized_gets_session(v: ServerView, id: Seq<u8>, h: HandshakerView, src: Addr)
    requires
        v.wf(),
        position(v.sessions, id, 0) is None,
        h.noise.remote is Some,
        crate::proto::is_authorized(v.authorized, h.noise.remote.unwrap()),
    ensures
        ({
            let w = v.admitted(id, h, src);
            &&& w.session(id) matches Some(s)
            &&& s.client_key == h.noise.remote.unwrap()
            &&& s.session == crate::handshake::session_of(h, Some(src))
            &&& match v.moved(h) {
                Some(from) => {
                    &&& w.sessions.len() == v.sessions.len()
                    &&& w.session(from) is None
                    &&& s.running()
                },
                None => w.sessions.len() == v.sessions.len() + 1,
            }
        }),
{
    let key = h.noise.remote.unwrap();
    let w = v.admitted(id, h, src);
    lemma_position(v.sessions, id, 0);
    match running_for(v.sessions, key, 0) {
        Some(i) => {
            lemma_running(v.sessions, key, 0);
            lemma_distinct_remove(v.sessions, i);
            let from = v.sessions[i].0;
            assert(from != id);
            lemma_found_last(v.sessions.remove(i), id, w.sessions.last().1);
            lemma_position(w.sessions, from, 0);
            if let Some(k) = position(w.sessions, from, 0) {
                lemma_position(v.sessions.remove(i), from, 0);
                assert(v.sessions.remove(i)[k] == w.sessions[k]);
            }
        },
        None => {
            lemma_found_last(v.sessions, id, w.sessions.last().1);
        },
    }
}

proof fn lemma_running(sessions: Seq<(Seq<u8>, ServerSessionView)>, key: Seq<u8>, from: int)
    requires
        0 <= from,
    ensures
        running_for(sessions, key, from) matches Some(i) ==> from <= i < sessions.len()
            && sessions[i].1.running() && sessions[i].1.client_key == key,
    decreases sessions.len() - from,
{
    if from < sessions.len() && !(sessions[from].1.running() && sessions[from].1.client_key
        == key) {
        lemma_running(sessions, key, from + 1);
    }
}

proof fn lemma_found_last<T>(entries: Seq<(Seq<u8>, T)>, id: Seq<u8>, t: T)
    requires
        position(entries, id, 0) is None,
    ensures
        position(entries.push((id, t)), id, 0) == Some(entries.len() as int),
{
    lemma_position(entries, id, 0);
    let more = entries.push((id, t));
    lemma_position(more, id, 0);
    if let Some(k) = position(more, id, 0) {
        if k < entries.len() {
            assert(more[k] == entries[k]);
        }
    } else {
        assert(more[entries.len() as int].0 == id);
    }
}

/// When the last message of a client with an authorized key comes to the handshake
/// that it belongs to, the client gets a session, under its key and at the address
/// that it came from; and client and server open what the other seals.
pub proof fn law_sessions_match(
    before: ServerView,
    client: Handshaker,
    server_addr: Addr,
    src: Addr,
    id: Seq<u8>,
    body: Seq<u8>,
    carries: Seq<u8>,
    after: ServerView,
    out: Datagrams,
    moved: Option<Seq<u8>>,
)
    requires
        before.wf(),
        client@.wf(),
        client@.id == id,
        position(before.sessions, id, 0) is None,
        position(before.pending, id, 0) matches Some(i) && crate::noise::awaits(
            before.pending[i].1.noise,
            client@.noise,
            body,
            carries,
        ),
        crate::proto::is_authorized(
            before.authorized,
            crate::noise::public_of(client@.noise.private),
        ),
        handshake_step(before, true, src, id, body, after, out, moved),
    ensures
        after.session(id) matches Some(s) && {
            let c = crate::handshake::session_of(client@, Some(server_addr));
            &&& s.client_key == crate::noise::public_of(client@.noise.private)
            &&& s.session.peer == Some(src)
            &&& s.session.id == c.id
            &&& s.session.receiving == c.sending
            &&& c.receiving == s.session.sending
        },
{
    lemma_position(before.pending, id, 0);
    let i = position(before.pending, id, 0).unwrap();
    let h0 = before.pending[i].1;
    assert(awaits_last(h0, before.pending[i].0));
    let rest = ServerView { pending: before.pending.remove(i), ..before };
    let h = choose|h: HandshakerView| #[trigger]
        finishes(h0, h, body) && after == rest.admitted(id, h, src) && moved == before.moved(h);
    assert(h.noise.exchanged =~= client@.noise.exchanged);
    assert(crate::noise::matched(h.noise, client@.noise));
    assert(distinct(rest.pending));
    law_authorized_gets_session(rest, id, h, src);
}

/// What does not belong to a pending handshake does not end it: it still awaits
/// the client's last message afterwards, and there is no session. That message is
/// then accepted, as it would have been before, unless a static key came out of what
/// was refused.
pub proof fn law_garbage_keeps_handshake(
    before: ServerView,
    src: Addr,
    id: Seq<u8>,
    body: Seq<u8>,
    after: ServerView,
    out: Datagrams,
    moved: Option<Seq<u8>>,
)
    requires
        before.wf(),
        position(before.sessions, id, 0) is None,
        position(before.pending, id, 0) is Some,
        handshake_step(before, false, src, id, body, after, out, moved),
    ensures
        out.len() == 0,
        after.sessions == before.sessions,
        ({
            let i = position(before.pending, id, 0).unwrap();
            &&& i < after.pending.len()
            &&& awaits_last(after.pending[i].1, id)
            &&& after.pending[i].0 == id
            &&& position(after.pending, id, 0) == Some(i)
            &&& after.pending[i].1.noise.keys == before.pending[i].1.noise.keys
            &&& after.pending[i].1.noise.remote is None ==> forall|
                client: Handshaker,
                message: Seq<u8>,
                carries: Seq<u8>,
            | #[trigger]
                crate::noise::awaits(
                    before.pending[i].1.noise,
                    client@.noise,
                    message,
                    carries,
                ) ==> crate::noise::awaits(
                    after.pending[i].1.noise,
                    client@.noise,
                    message,
                    carries,
                )
        }),
{
    lemma_position(before.pending, id, 0);
    let i = position(before.pending, id, 0).unwrap();
    assert(awaits_last(before.pending[i].1, before.pending[i].0));
    lemma_position(after.pending, id, 0);
    assert(after.pending[i].0 == id);
    let k = position(after.pending, id, 0).unwrap();
    if k < i {
        assert(before.pending[k].0 == id);
    }
}

/// Garbage injected into a pending handshake does not keep an authorized client out:
/// when its own last message comes afterwards, it gets its session, unless a static
/// key came out of the garbage.
pub proof fn law_handshake_survives_garbage(
    before: ServerView,
    garbage: Seq<u8>,
    between: ServerView,
    client: Handshaker,
    from: Addr,
    src: Addr,
    id: Seq<u8>,
    body: Seq<u8>,
    carries: Seq<u8>,
    after: ServerView,
    out: Datagrams,
    moved: Option<Seq<u8>>,
)
    requires
        before.wf(),
        between.wf(),
        client@.wf(),
        client@.id == id,
        position(before.sessions, id, 0) is None,
        position(before.pending, id, 0) matches Some(i) && crate::noise::awaits(
            before.pending[i].1.noise,
            client@.noise,
            body,
            carries,
        ) && between.pending[i].1.noise.remote is None,
        crate::proto::is_authorized(
            before.authorized,
            crate::noise::public_of(client@.noise.private),
        ),
        handshake_step(before, false, from, id, garbage, between, Seq::empty(), None),
        handshake_step(between, true, src, id, body, after, out, moved),
    ensures
        after.session(id) matches Some(s) && s.client_key == crate::noise::public_of(
            client@.noise.private,
        ) && s.session.peer == Some(src),
{
    law_garbage_keeps_handshake(before, from, id, garbage, between, Seq::empty(), None);
    law_sessions_match(
        between,
        client,
        src,
        src,
        id,
        body,
        carries,
        after,
        out,
        moved,
    );
}

/// A packet that is too short to begin a handshake is not answered, and leaves
/// no trace.
pub proof fn law_short_init_unanswered(
    before: ServerView,
    accepted: bool,
    src: Addr,
    id: Seq<u8>,
    body: Seq<u8>,
    after: ServerView,
    out: Datagrams,
    moved: Option<Seq<u8>>,
)
    requires
        handshake_step(before, accepted, src, id, body, after, out, moved),
        body.len() + 9 < crate::transport::MIN_HANDSHAKE_INIT,
        position(before.pending, id, 0) is None,
    ensures
        out.len() == 0,
        after == before,
{
}

/// A packet of a session that is not authentic leaves the server as it was.
pub proof fn law_forged_packet_harmless(v: ServerView, id: Seq<u8>, src: Addr, packet: Seq<u8>)
    requires
        v.session(id) matches Some(s) && s.session.authentic(packet) is Err,
    ensures
        ({
            let s = v.session(id).unwrap();
            v.with_session(
                id,
                ServerSessionView { session: s.session.after_open(src, packet), ..s },
            ) == v
        }),
{
    let s = v.session(id).unwrap();
    lemma_position(v.sessions, id, 0);
    let i = position(v.sessions, id, 0).unwrap();
    assert(v.sessions.update(i, (id, s)) =~= v.sessions);
}

/// A frame reaches the session that it belongs to, and no other.
pub proof fn law_frame_reaches_its_session(
    v: ServerView,
    id: Seq<u8>,
    other: Seq<u8>,
    f: FrameView,
)
    requires
        v.session(id) is Some,
        other != id,
    ensures
        v.after_frame(id, f).session(id) == Some(v.session(id)->0.after_frame(f)),
        v.after_frame(id, f).session(other) == v.session(other),
        v.after_frame(id, f).sessions.len() == v.sessions.len(),
        v.after_frame(id, f).pending == v.pending,
{
    let s = v.session(id)->0.after_frame(f);
    lemma_position(v.sessions, id, 0);
    let i = position(v.sessions, id, 0)->0;
    lemma_position_update(v.sessions, i, id, s, 0);
    lemma_other_position(v.sessions, i, id, s, other, 0);
    lemma_position(v.sessions, other, 0);
}

proof fn lemma_other_position(
    entries: Seq<(Seq<u8>, ServerSessionView)>,
    i: int,
    id: Seq<u8>,
    s: ServerSessionView,
    other: Seq<u8>,
    from: int,
)
    requires
        0 <= from,
        0 <= i < entries.len(),
        entries[i].0 == id,
        other != id,
    ensures
        position(entries.update(i, (id, s)), other, from) == position(entries, other, from),
        position(entries, other, from) matches Some(k) ==> k != i && 0 <= k < entries.len(),
    decreases entries.len() - from,
{
    if from < entries.len() {
        lemma_other_position(entries, i, id, s, other, from + 1);
    }
}

/// A remote forward is passed on as the client asked for it, with its session.
pub proof fn law_remote_forward_is_passed_on(
    v: ServerView,
    id: Seq<u8>,
    requests: crate::requests::RequestsView,
    k: int,
)
    requires
        v.session(id) is Some,
        requests.forwarding(),
        0 <= k < requests.forwards.len(),
        vstd::utf8::encode_utf8(requests.forwards[k].1).len() <= u64::MAX,
    ensures
        ({
            let f = requests.forward_frames()[k];
            v.after_frame(id, f).forwards == v.forwards.push(
                (id, requests.forwards[k].0, requests.forwards[k].1),
            )
        }),
{
    let m = ControlView::RemoteForward {
        bind_port: requests.forwards[k].0,
        target: requests.forwards[k].1,
    };
    crate::control::law_control_roundtrip(m);
    assert(requests.forward_frames()[k] == crate::requests::control_frame(m));
}

/// A client gets the shell that runs for its own key and for no other, with what is on
/// its screen; and it gets it whichever of the sessions it runs in.
pub proof fn law_returning_client_gets_its_shell(
    v: ServerView,
    id: Seq<u8>,
    h: HandshakerView,
    src: Addr,
    k: int,
)
    requires
        v.wf(),
        position(v.sessions, id, 0) is None,
        h.noise.remote is Some,
        crate::proto::is_authorized(v.authorized, h.noise.remote.unwrap()),
        0 <= k < v.sessions.len(),
        v.sessions[k].1.client_key == h.noise.remote.unwrap(),
        v.sessions[k].1.running(),
        forall|j: int|
            0 <= j < v.sessions.len() && j != k ==> (#[trigger] v.sessions[j]).1.client_key
                != h.noise.remote.unwrap(),
    ensures
        ({
            let old = v.sessions[k].1;
            let w = v.admitted(id, h, src);
            &&& v.moved(h) == Some(v.sessions[k].0)
            &&& w.session(id) matches Some(s) && {
                &&& s.pty == old.pty
                &&& s.rows == old.rows
                &&& s.cols == old.cols
                &&& s.shell is Some <==> old.shell is Some
                &&& s.shell matches Some(sh) ==> sh.screen == old.shell->0.screen && sh.received == 0
                    && sh.force_full
                &&& s.client_key == old.client_key
            }
        }),
{
    let key = h.noise.remote.unwrap();
    lemma_running_is(v.sessions, key, 0, k);
    let fresh = ServerSessionView::fresh(
        crate::handshake::session_of(h, Some(src)),
        key,
        crate::server_session::fresh_mux(),
    );
    let rest = v.sessions.remove(k);
    assert(position(rest, id, 0) is None) by {
        lemma_position(v.sessions, id, 0);
        lemma_position(rest, id, 0);
    }
    lemma_found_last(rest, id, fresh.taking_over(v.sessions[k].1));
}

proof fn lemma_running_is(
    sessions: Seq<(Seq<u8>, ServerSessionView)>,
    key: Seq<u8>,
    from: int,
    k: int,
)
    requires
        0 <= from <= k < sessions.len(),
        sessions[k].1.running(),
        sessions[k].1.client_key == key,
        forall|j: int|
            0 <= j < sessions.len() && j != k ==> (#[trigger] sessions[j]).1.client_key != key,
    ensures
        running_for(sessions, key, from) == Some(k),
    decreases k - from,
{
    if from < k {
        lemma_running_is(sessions, key, from + 1, k);
    }
}

/// A session that a tick does not finish goes on in the state that the tick leaves it
/// in, by how its own shell ended; what it sends is sent, and its events are told under
/// its id.
pub proof fn law_tick_by_session(
    sessions: Seq<(Seq<u8>, ServerSessionView)>,
    exits: Seq<(Seq<u8>, i32)>,
    n: int,
)
    requires
        0 < n <= sessions.len(),
    ensures
        ({
            let id = sessions[n - 1].0;
            let t = sessions[n - 1].1.ticked(exit_of(exits, id));
            let before = ticked_all(sessions, exits, n - 1);
            let after = ticked_all(sessions, exits, n);
            &&& !t.finished ==> after.kept == before.kept.push((id, t.after))
            &&& t.finished ==> after.kept == before.kept
            &&& after.out == before.out + t.out
            &&& after.events.len() == before.events.len() + t.events.len()
            &&& forall|i: int|
                0 <= i < t.events.len() ==> #[trigger] after.events[before.events.len() + i] == (
                    id,
                    t.events[i],
                )
            &&& t.kill <==> after.killed.len() == before.killed.len() + 1
        }),
{
}

/// A server is done when it has had a session and the shell of every session that is
/// left has ended, and not before.
pub proof fn law_done_when_all_exited(v: ServerView, k: int)
    ensures
        !v.ever_active ==> !v.all_done(),
        0 <= k < v.sessions.len() && v.sessions[k].1.exit_status is None ==> !v.all_done(),
        v.ever_active && v.sessions.len() == 0 ==> v.all_done(),
{
}

} // verus!
