//! XX handshake driver over the transport packet layer.
//!
//! Produces and consumes raw handshake packets (`[type=0][session_id][msg]`)
//! and, on completion, yields a [`Session`]. Auth decisions (authorized_keys on
//! the server, TOFU known_hosts on the client) are made by the caller using the
//! peer's authenticated static key, which is available once the handshake
//! finishes.

use crate::noise::{Handshake, HandshakeView, NoiseError, NoiseErrorView, Role};
use crate::transport::{
    build_handshake_packet, Addr, PacketView, Session, SessionId, SessionView, TransportErrorView,
};
use vstd::prelude::*;

verus! {

/// Why a handshake failed.
#[derive(Debug)]
pub enum HandshakeError {
    /// A message could not be made or was refused.
    Noise(NoiseError),
    /// The handshake is already finished.
    AlreadyFinished,
    /// The handshake is not finished.
    NotFinished,
}

/// What an error says.
pub enum HandshakeErrorView {
    Noise(NoiseErrorView),
    AlreadyFinished,
    NotFinished,
}

impl View for HandshakeError {
    type V = HandshakeErrorView;

    open spec fn view(&self) -> HandshakeErrorView {
        match *self {
            HandshakeError::Noise(e) => HandshakeErrorView::Noise(e@),
            HandshakeError::AlreadyFinished => HandshakeErrorView::AlreadyFinished,
            HandshakeError::NotFinished => HandshakeErrorView::NotFinished,
        }
    }
}

/// How far one side of a handshake is.
pub struct HandshakerView {
    /// The session id.
    pub id: Seq<u8>,
    /// The exchange of messages.
    pub noise: HandshakeView,
    /// Whether the handshake was seen to be finished.
    pub finished: bool,
}

impl HandshakerView {
    /// A state that a driver can be in: it is finished when all messages were
    /// exchanged.
    pub open spec fn wf(self) -> bool {
        &&& self.id.len() == 8
        &&& crate::noise::in_turn(self.noise)
        &&& self.finished == (self.noise.messages == crate::noise::MESSAGES)
    }
}

/// Drives one side of the XX handshake.
pub struct Handshaker {
    hs: Handshake,
    session_id: SessionId,
    finished: bool,
}

impl View for Handshaker {
    type V = HandshakerView;

    closed spec fn view(&self) -> HandshakerView {
        HandshakerView { id: self.session_id@, noise: self.hs@, finished: self.finished }
    }
}

/// Result of feeding a handshake message.
#[derive(Debug)]
pub struct HsOutcome {
    /// A reply packet to send to the peer, if any.
    pub reply: Option<Vec<u8>>,
    /// Whether the handshake is now complete.
    pub finished: bool,
    /// What the message carried.
    pub payload: Vec<u8>,
}

/// A packet that carries a handshake message of a session.
pub open spec fn message_packet(packet: Seq<u8>, id: Seq<u8>, message: Seq<u8>) -> bool {
    &&& packet == crate::transport::packet_bytes(PacketView::Handshake { id, body: message })
    &&& crate::transport::packet_of(packet) == Ok::<PacketView, TransportErrorView>(
        (PacketView::Handshake { id, body: message }),
    )
}

/// A message was received with the payload that the other side gave it.
pub open spec fn heard(v: HandshakeView, w: HandshakeView, message: Seq<u8>) -> bool {
    forall|other: Handshaker, carries: Seq<u8>| #[trigger]
        crate::noise::awaits(v, other@.noise, message, carries)
            ==> w.exchanged[v.exchanged.len() as int].1 == carries
}

/// The exchange after a message was received and the next one was sent.
pub open spec fn replied(v: HandshakeView, w: HandshakeView, message: Seq<u8>) -> bool {
    &&& heard(v, w, message)
    &&& w.clean == v.clean
    &&& w.messages == v.messages + 2
    &&& w.exchanged.len() == v.exchanged.len() + 2
    &&& w.exchanged.take(v.exchanged.len() as int) == v.exchanged
    &&& w.exchanged[v.exchanged.len() as int].0 == message
    &&& w.exchanged.last().1 == reply_payload(v.initiator)
}

/// What the reply of one side carries: that of the server its version, that of the
/// client nothing.
pub open spec fn reply_payload(initiator: bool) -> Seq<u8> {
    if initiator {
        Seq::empty()
    } else {
        vstd::utf8::encode_utf8(crate::ssh::VERSION@)
    }
}

/// The version that the payload of a server's reply tells, if it tells one.
pub open spec fn version_in(payload: Seq<u8>) -> Option<Seq<char>> {
    if payload.len() > 0 && vstd::utf8::valid_utf8(payload) {
        Some(vstd::utf8::decode_utf8(payload))
    } else {
        None
    }
}

/// The reply of a server tells its version.
pub proof fn law_reply_tells_version()
    ensures
        version_in(reply_payload(false)) == Some(crate::ssh::VERSION@),
        reply_payload(false).len() == crate::ssh::VERSION@.len(),
        crate::ssh::VERSION@.len() < 64,
{
    let v = crate::ssh::VERSION@;
    reveal_strlit("0.4.1");
    assert(vstd::utf8::is_ascii_chars(v));
    vstd::utf8::is_ascii_chars_encode_utf8(v);
    vstd::utf8::encode_utf8_valid_utf8(v);
    vstd::utf8::encode_utf8_decode_utf8(v);
}

/// `h` is how the handshake `before` is after it refused a message: the exchange is
/// where it was; what is taken for the other side's key may have changed. It is as
/// undisturbed as it was, unless it awaits the last message and a static key came
/// out of what it refused.
pub open spec fn refused(before: HandshakerView, h: HandshakerView) -> bool {
    &&& h.wf()
    &&& h == (HandshakerView {
        noise: HandshakeView { remote: h.noise.remote, clean: h.noise.clean, ..before.noise },
        ..before
    })
    &&& before.noise.messages == 1 || h.noise.remote is None ==> h.noise.clean
        == before.noise.clean
}

/// A finished side has the keys of every side that exchanged the same messages
/// with it, and each of the two knows the other's static key.
pub open spec fn keyed(v: HandshakeView) -> bool {
    forall|other: Handshaker|
        crate::noise::matched(v, (#[trigger] other@).noise) ==> crate::noise::agreed(
            v,
            other@.noise,
        )
}

/// `h` is a client's handshake that has begun, and the packet carries its first
/// message, with as many zeros for a payload as make the packet long enough.
pub open spec fn opening(h: HandshakerView, private: Seq<u8>, packet: Seq<u8>) -> bool {
    &&& h.wf()
    &&& h.noise == (HandshakeView {
        pattern: crate::noise::PATTERN@,
        initiator: true,
        private,
        exchanged: seq![(h.noise.exchanged[0].0, Seq::new(1159, |i: int| 0u8))],
        clean: true,
        messages: 1,
        my_turn: false,
        remote: None,
        keys: h.noise.keys,
    })
    &&& message_packet(packet, h.id, h.noise.exchanged[0].0)
    &&& packet.len() == crate::transport::MIN_HANDSHAKE_INIT
}

fn packet(id: &SessionId, msg: &Vec<u8>) -> (out: Vec<u8>)
    ensures
        message_packet(out@, id@, msg@),
        out@.len() == msg@.len() + 9,
{
    build_handshake_packet(id, msg.as_slice())
}

impl Handshaker {
    /// The driver is in a state that it can be in.
    pub open spec fn wf(&self) -> bool {
        self@.wf()
    }

    /// A message body is accepted as the next one.
    pub closed spec fn accepts(&self, body: Seq<u8>) -> bool {
        self.hs.carried(body) is Some
    }

    /// Begin as the client. Returns the driver and the first packet to send,
    /// which is padded to the length that a server asks of it.
    pub fn client(local_private: &[u8], session_id: SessionId) -> (r: Result<
        (Handshaker, Vec<u8>),
        HandshakeError,
    >)
        requires
            local_private@.len() <= crate::noise::KEY_LEN,
        ensures
            match r {
                Ok((h, packet)) => {
                    &&& h.wf()
                    &&& h@.id == session_id@
                    &&& opening(h@, local_private@, packet@)
                },
                Err(e) => e@ matches HandshakeErrorView::Noise(n) && n is Snow,
            },
    {
        let mut hs: Handshake = match Handshake::new(Role::Initiator, local_private) {
            Ok(h) => h,
            Err(e) => return Err(HandshakeError::Noise(e)),
        };
        let padding: [u8; 1159] = [0u8; 1159];
        match hs.write_message(&padding) {
            Ok(msg) => {
                let out: Vec<u8> = packet(&session_id, &msg);
                assert(padding@ =~= Seq::new(1159, |i: int| 0u8));
                assert(hs@.exchanged =~= seq![(hs@.exchanged[0].0, padding@)]);
                Ok((Handshaker { hs, session_id, finished: false }, out))
            },
            Err(e) => Err(HandshakeError::Noise(e)),
        }
    }

    /// Begin as the server, awaiting the client's first message.
    pub fn server(local_private: &[u8], session_id: SessionId) -> (r: Result<
        Handshaker,
        HandshakeError,
    >)
        requires
            local_private@.len() <= crate::noise::KEY_LEN,
        ensures
            r matches Ok(h) && h.wf() && h@.id == session_id@ && !h@.finished
                && crate::noise::begun(false, local_private@, h@.noise),
    {
        match Handshake::new(Role::Responder, local_private) {
            Ok(hs) => Ok(Handshaker { hs, session_id, finished: false }),
            Err(e) => Err(HandshakeError::Noise(e)),
        }
    }

    /// The session id.
    pub fn session_id(&self) -> (r: SessionId)
        ensures
            r@ == self@.id,
    {
        self.session_id
    }

    /// Whether the handshake is complete.
    pub fn is_finished(&self) -> (r: bool)
        ensures
            r == self@.finished,
    {
        self.finished
    }

    /// Feed an incoming handshake message body (the part after the packet
    /// header). Returns any reply packet to send and whether we are done. A
    /// message that is refused leaves the exchange where it was.
    pub fn read(&mut self, body: &[u8]) -> (r: Result<HsOutcome, HandshakeError>)
        requires
            old(self).wf(),
            body@.len() + 256 <= usize::MAX,
        ensures
            final(self).wf(),
            final(self)@.id == old(self)@.id,
            crate::noise::begins(old(self)@.noise, body@) ==> old(self).accepts(body@),
            forall|other: Handshaker, carries: Seq<u8>| #[trigger]
                crate::noise::awaits(old(self)@.noise, other@.noise, body@, carries)
                    ==> old(self).accepts(body@),
            if !old(self).accepts(body@) {
                &&& r matches Err(e)
                &&& e@ matches HandshakeErrorView::Noise(n) && n is Snow
                &&& refused(old(self)@, final(self)@)
            } else {
                let v = old(self)@.noise;
                let w = final(self)@.noise;
                &&& !v.my_turn
                &&& v.messages < crate::noise::MESSAGES
                &&& w.initiator == v.initiator
                &&& w.private == v.private
                &&& if v.messages + 1 == crate::noise::MESSAGES {
                    // The responder completes upon reading the final message.
                    &&& r matches Ok(o)
                    &&& o.reply is None
                    &&& o.finished
                    &&& o.payload@ == w.exchanged.last().1
                    &&& crate::noise::received(v, w, body@, w.exchanged.last().1)
                    &&& heard(v, w, body@)
                    &&& keyed(w)
                } else {
                    // Otherwise the next message is owed. The server's needs
                    // randomness.
                    match r {
                        Ok(o) => {
                            &&& replied(v, w, body@)
                            &&& o.finished == (w.messages == crate::noise::MESSAGES)
                            &&& o.payload@ == w.exchanged[v.exchanged.len() as int].1
                            &&& o.reply matches Some(p)
                            &&& message_packet(p@, old(self)@.id, w.exchanged.last().0)
                        },
                        Err(e) => {
                            &&& !v.initiator
                            &&& e@ matches HandshakeErrorView::Noise(n) && n is Snow
                            &&& w.messages == v.messages + 1
                        },
                    }
                }
            },
    {
        let payload: Vec<u8> = match self.hs.read_message(body) {
            Ok(p) => p,
            Err(e) => return Err(HandshakeError::Noise(e)),
        };
        if self.hs.is_finished() {
            self.finished = true;
            proof {
                let w = self@.noise;
                assert(w.exchanged.last().0 == body@);
                assert forall|other: Handshaker|
                    crate::noise::matched(w, (#[trigger] other@).noise) implies crate::noise::agreed(
                    w,
                    other@.noise,
                ) by {
                    assert(other@.noise == other.hs@);
                }
            }
            return Ok(HsOutcome { reply: None, finished: true, payload });
        }
        // The server tells its version, so that a client knows it at once.
        let nothing: [u8; 0] = [];
        let tells: &[u8] = if self.hs.is_initiator() {
            &nothing
        } else {
            crate::ssh::VERSION.as_bytes()
        };
        proof {
            law_reply_tells_version();
            assert(nothing@ =~= Seq::<u8>::empty());
            assert(tells@ == reply_payload(self@.noise.initiator));
        }
        match self.hs.write_message(tells) {
            Ok(msg) => {
                self.finished = self.hs.is_finished();
                let reply: Vec<u8> = packet(&self.session_id, &msg);
                proof {
                    let v = old(self)@.noise;
                    assert(self@.noise.exchanged.take(v.exchanged.len() as int) =~= v.exchanged);
                }
                Ok(HsOutcome { reply: Some(reply), finished: self.finished, payload })
            },
            Err(e) => Err(HandshakeError::Noise(e)),
        }
    }

    /// The peer's authenticated static public key (once available).
    pub fn remote_static(&self) -> (r: Option<Vec<u8>>)
        ensures
            match self@.noise.remote {
                Some(k) => r matches Some(v) && v@ == k,
                None => r is None,
            },
    {
        self.hs.remote_static()
    }

    /// Consume into a live transport session anchored at `peer_addr`. Errors if
    /// the handshake has not completed.
    pub fn into_session(self, peer_addr: Option<Addr>) -> (r: Result<Session, HandshakeError>)
        requires
            self.wf(),
        ensures
            if !self@.finished {
                r matches Err(e) && e@ == HandshakeErrorView::NotFinished
            } else {
                r matches Ok(s) && s@ == session_of(self@, peer_addr)
            },
    {
        if !self.finished {
            return Err(HandshakeError::NotFinished);
        }
        match self.hs.into_transport() {
            Ok(noise) => Ok(Session::new(self.session_id, noise, peer_addr)),
            Err(e) => Err(HandshakeError::Noise(e)),
        }
    }
}

/// The session that a finished handshake leaves.
pub open spec fn session_of(h: HandshakerView, peer: Option<Addr>) -> SessionView {
    let keys = h.noise.keys;
    if h.noise.initiator {
        SessionView::fresh(h.id, keys.0, keys.1, h.noise.remote.unwrap(), peer)
    } else {
        SessionView::fresh(h.id, keys.1, keys.0, h.noise.remote.unwrap(), peer)
    }
}

/// The two sides of a handshake of one session id that exchanged the same messages
/// can open what the other seals: each decrypts under the key that the other
/// encrypts with. And each knows the other's static key.
pub proof fn law_sides_match(
    client: Handshaker,
    server: HandshakerView,
    at: Option<Addr>,
    from: Option<Addr>,
)
    requires
        client@.wf(),
        server.wf(),
        client@.id == server.id,
        client@.noise.initiator,
        !server.noise.initiator,
        keyed(server.noise),
        crate::noise::matched(server.noise, client@.noise),
    ensures
        session_of(client@, at).id == session_of(server, from).id,
        session_of(client@, at).receiving == session_of(server, from).sending,
        session_of(server, from).receiving == session_of(client@, at).sending,
        session_of(client@, at).remote == crate::noise::public_of(server.noise.private),
        session_of(server, from).remote == crate::noise::public_of(client@.noise.private),
{
}

/// A client that accepts the server's message is finished once it has replied; a
/// server that accepts a first message is not, and finishes on the next that it
/// accepts.
pub proof fn law_rounds(h: HandshakerView)
    requires
        h.wf(),
        !h.noise.my_turn,
        h.noise.messages < crate::noise::MESSAGES,
    ensures
        h.noise.initiator ==> h.noise.messages + 2 == crate::noise::MESSAGES,
        !h.noise.initiator ==> h.noise.messages == 0 || h.noise.messages + 1
            == crate::noise::MESSAGES,
{
}

} // verus!
