//! Noise session core.
//!
//! Wraps `snow` to provide the `Noise_XX_25519_ChaChaPoly_BLAKE2s` handshake
//! and a stateless transport mode (explicit per-message nonce) suitable for
//! out-of-order UDP datagrams. Pure bytes-in / bytes-out: knows nothing about
//! UDP, terminals, or PAM.

use vstd::prelude::*;

verus! {

/// The fixed Noise pattern used for all sessions.
pub const PATTERN: &'static str = "Noise_XX_25519_ChaChaPoly_BLAKE2s";

/// Length of an X25519 public/private key in bytes.
pub const KEY_LEN: usize = 32;

/// Length of the authentication tag of a message.
pub const TAG_LEN: usize = 16;

/// Longest message.
pub const MAX_MESSAGE: usize = 65535;

/// Number of messages of a handshake.
pub const MESSAGES: usize = 3;

// ---------------------------------------------------------------------------
// The `snow` crate
// ---------------------------------------------------------------------------

/// An error of `snow`.
#[verifier::external_type_specification]
#[verifier::external_body]
pub struct ExError(snow::Error);

/// The parts of a Noise pattern.
#[verifier::external_type_specification]
#[verifier::external_body]
pub struct ExNoiseParams(snow::params::NoiseParams);

/// What a handshake is built from.
#[verifier::external_type_specification]
#[verifier::external_body]
pub struct ExBuilder<'builder>(snow::Builder<'builder>);

/// A handshake in progress.
#[verifier::external_type_specification]
#[verifier::external_body]
pub struct ExHandshakeState(snow::HandshakeState);

/// The two ciphers that a finished handshake leaves.
#[verifier::external_type_specification]
#[verifier::external_body]
pub struct ExStatelessTransportState(snow::StatelessTransportState);

/// How an error is written for a programmer.
pub uninterp spec fn error_text(e: snow::Error) -> Seq<char>;

/// The name of a pattern.
pub uninterp spec fn pattern_name(p: snow::params::NoiseParams) -> Seq<char>;

/// The pattern and the private key that a builder holds which was given nothing else:
/// no prologue, no key of the other side, no shared key, no fixed ephemeral key. Of a
/// builder that was given more, the pattern is not one that a name stands for.
pub uninterp spec fn set_up(b: snow::Builder) -> (Seq<char>, Option<Seq<u8>>);

/// The state of a handshake.
pub struct HandshakeView {
    /// The name of the pattern, if the handshake was given nothing but a private key
    /// besides it.
    pub pattern: Seq<char>,
    /// Whether this side sends the first message.
    pub initiator: bool,
    /// The private key of this side.
    pub private: Seq<u8>,
    /// The messages that have been sent and received, each with its payload.
    pub exchanged: Seq<(Seq<u8>, Seq<u8>)>,
    /// The exchange is undisturbed: no message that could not be made, or that was
    /// refused, keeps the next one from being accepted.
    pub clean: bool,
    /// How many messages have been sent and received.
    pub messages: nat,
    /// Whether this side sends the next message.
    pub my_turn: bool,
    /// The static public key of the other side, once it was received.
    pub remote: Option<Seq<u8>>,
    /// The keys of the two ciphers, once all messages were exchanged: that of
    /// the initiator's messages, and that of the responder's.
    pub keys: (Seq<u8>, Seq<u8>),
}

/// The state that a handshake of `snow` is in.
pub uninterp spec fn state_of(hs: snow::HandshakeState) -> HandshakeView;

/// The payload of a message, if a handshake accepts it as the next one.
pub uninterp spec fn carried(hs: snow::HandshakeState, message: Seq<u8>) -> Option<Seq<u8>>;

/// The pattern, in that sense, of the handshake that a transport comes from.
pub uninterp spec fn transport_pattern(t: snow::StatelessTransportState) -> Seq<char>;

/// The keys under which a transport encrypts, and decrypts.
pub uninterp spec fn keys_of(t: snow::StatelessTransportState) -> (Seq<u8>, Seq<u8>);

/// A message encrypted under a key and a nonce, with its tag.
pub uninterp spec fn sealed(key: Seq<u8>, nonce: u64, plain: Seq<u8>) -> Seq<u8>;

/// The message that was encrypted under a key and a nonce, if the tag shows
/// that one was.
pub uninterp spec fn opened(key: Seq<u8>, nonce: u64, message: Seq<u8>) -> Option<Seq<u8>>;

/// The X25519 public key of a private key.
pub uninterp spec fn public_of(private: Seq<u8>) -> Seq<u8>;

/// `snow::Error`'s `Debug` form.
#[verifier::external_body]
fn debug_text(e: &snow::Error) -> (r: String)
    ensures
        r@ == error_text(*e),
{
    format!("{e:?}")
}

/// `<snow::params::NoiseParams as FromStr>::from_str`: reads a pattern by its
/// name. The pattern used here is one that it knows; of others nothing is
/// stated.
#[verifier::external_body]
fn params_of(name: &str) -> (r: Result<snow::params::NoiseParams, snow::Error>)
    ensures
        name@ == PATTERN@ ==> r is Ok,
        r matches Ok(p) ==> pattern_name(p) == name@,
{
    name.parse()
}

/// `snow::Builder::new`: a builder with the pattern and no private key.
#[verifier::external_body]
fn new_builder<'a>(params: snow::params::NoiseParams) -> (r: snow::Builder<'a>)
    ensures
        set_up(r) == (pattern_name(params), None::<Seq<u8>>),
{
    snow::Builder::new(params)
}

/// `snow::Builder::local_private_key`: takes the private key, unless the
/// builder has one.
#[verifier::external_body]
fn with_private_key<'a>(b: snow::Builder<'a>, key: &'a [u8]) -> (r: Result<
    snow::Builder<'a>,
    snow::Error,
>)
    ensures
        r is Ok <==> set_up(b).1 is None,
        r matches Ok(x) ==> set_up(x) == (set_up(b).0, Some(key@)),
{
    b.local_private_key(key)
}

/// The state of a handshake that has just begun.
pub open spec fn begun(initiator: bool, private: Seq<u8>, v: HandshakeView) -> bool {
    v == (HandshakeView {
        pattern: PATTERN@,
        initiator,
        private,
        exchanged: Seq::empty(),
        clean: true,
        messages: 0,
        my_turn: initiator,
        remote: None,
        keys: v.keys,
    })
}

/// `snow::Builder::build_initiator`: begins a handshake of the pattern as the
/// side that sends first. It succeeds if the builder has a private key; a key
/// that is longer than a key of the curve makes it panic.
#[verifier::external_body]
fn initiator(b: snow::Builder) -> (r: Result<snow::HandshakeState, snow::Error>)
    requires
        set_up(b).0 == PATTERN@,
        set_up(b).1 matches Some(k) && k.len() <= KEY_LEN,
    ensures
        r is Ok,
        r matches Ok(hs) ==> begun(true, set_up(b).1.unwrap(), state_of(hs)),
{
    b.build_initiator()
}

/// `snow::Builder::build_responder`: begins a handshake of the pattern as the
/// side that receives first. It succeeds if the builder has a private key; a
/// key that is longer than a key of the curve makes it panic.
#[verifier::external_body]
fn responder(b: snow::Builder) -> (r: Result<snow::HandshakeState, snow::Error>)
    requires
        set_up(b).0 == PATTERN@,
        set_up(b).1 matches Some(k) && k.len() <= KEY_LEN,
    ensures
        r is Ok,
        r matches Ok(hs) ==> begun(false, set_up(b).1.unwrap(), state_of(hs)),
{
    b.build_responder()
}

/// `snow::Builder::generate_keypair`: a private key drawn at random, with its
/// public key; an error if there is no randomness to be had.
#[verifier::external_body]
fn random_keypair(b: &snow::Builder) -> (r: Result<Keypair, snow::Error>)
    requires
        set_up(*b).0 == PATTERN@,
    ensures
        r matches Ok(k) ==> k.private@.len() == KEY_LEN && k.public@.len() == KEY_LEN
            && k.public@ == public_of(k.private@),
{
    b.generate_keypair().map(|k| Keypair { private: k.private, public: k.public })
}

/// The next message is this side's to send.
pub open spec fn sends(v: HandshakeView) -> bool {
    v.my_turn && v.messages < MESSAGES
}

/// How much longer than its payload the next message is: the first carries an
/// ephemeral key, the second an ephemeral and an encrypted static key, the
/// third an encrypted static key; the payload is encrypted but for the first.
pub open spec fn overhead(messages: nat) -> nat {
    if messages == 0 {
        32
    } else if messages == 1 {
        96
    } else {
        64
    }
}

/// The state after a message with a payload was sent.
pub open spec fn sent(
    v: HandshakeView,
    w: HandshakeView,
    message: Seq<u8>,
    payload: Seq<u8>,
) -> bool {
    w == (HandshakeView {
        exchanged: v.exchanged.push((message, payload)),
        messages: v.messages + 1,
        my_turn: false,
        keys: w.keys,
        ..v
    })
}

/// A message that begins a handshake as far as the side that awaits it can
/// tell: the key at its front is all that it is asked for.
pub open spec fn begins(v: HandshakeView, message: Seq<u8>) -> bool {
    v.messages == 0 && !v.my_turn && KEY_LEN <= message.len() <= MAX_MESSAGE
}

/// The state after a message with a payload was received. All but the first
/// message carry the static key of their sender.
pub open spec fn received(
    v: HandshakeView,
    w: HandshakeView,
    message: Seq<u8>,
    payload: Seq<u8>,
) -> bool {
    &&& w == (HandshakeView {
        exchanged: v.exchanged.push((message, payload)),
        messages: v.messages + 1,
        my_turn: true,
        keys: w.keys,
        remote: w.remote,
        ..v
    })
    &&& if v.messages == 0 {
        w.remote == v.remote
    } else {
        w.remote matches Some(k) && k.len() == KEY_LEN
    }
}

/// It is the other side's turn, and it has sent a message with a payload after the
/// two had exchanged the same messages.
pub open spec fn awaits(
    v: HandshakeView,
    other: HandshakeView,
    message: Seq<u8>,
    payload: Seq<u8>,
) -> bool {
    &&& v.pattern == other.pattern
    &&& v.clean && other.clean
    &&& v.initiator != other.initiator
    &&& !v.my_turn
    &&& v.messages < MESSAGES
    &&& other.exchanged == v.exchanged.push((message, payload))
}

/// The two sides of a handshake have exchanged the same messages, all of them.
pub open spec fn matched(v: HandshakeView, other: HandshakeView) -> bool {
    &&& v.pattern == other.pattern
    &&& v.clean && other.clean
    &&& v.initiator != other.initiator
    &&& v.messages == MESSAGES
    &&& v.exchanged == other.exchanged
}

/// The two sides of a handshake have the same keys, and each knows the static key
/// of the other.
pub open spec fn agreed(v: HandshakeView, other: HandshakeView) -> bool {
    &&& v.keys == other.keys
    &&& v.remote == Some(public_of(other.private))
    &&& other.remote == Some(public_of(v.private))
}

/// `snow::HandshakeState::write_message`: writes the next message, with a
/// payload, to the front of a buffer. It fails, and the exchange stays where it
/// was, if it is not this side's turn, if the handshake is finished, if the
/// message would be too long, or if the message needs randomness, as the first
/// two do, and there is none to be had. Of the message its length is stated, but
/// not what it holds. A buffer too short for the keys makes it panic.
pub assume_specification[ snow::HandshakeState::write_message ](
    hs: &mut snow::HandshakeState,
    payload: &[u8],
    message: &mut [u8],
) -> (r: Result<usize, snow::Error>)
    requires
        state_of(*old(hs)).pattern == PATTERN@,
        payload@.len() < 0x3f_ffff_ffc0,
        old(message)@.len() >= payload@.len() + 96,
    ensures
        final(message)@.len() == old(message)@.len(),
        match r {
            Ok(n) => {
                &&& sends(state_of(*old(hs)))
                &&& sent(
                    state_of(*old(hs)),
                    state_of(*final(hs)),
                    final(message)@.take(n as int),
                    payload@,
                )
                &&& n == payload@.len() + overhead(state_of(*old(hs)).messages)
                &&& n <= old(message)@.len()
                &&& n <= MAX_MESSAGE
            },
            Err(e) => {
                &&& state_of(*final(hs)) == (HandshakeView {
                    clean: state_of(*final(hs)).clean,
                    ..state_of(*old(hs))
                })
                &&& !sends(state_of(*old(hs))) ==> state_of(*final(hs)) == state_of(*old(hs))
                &&& !state_of(*old(hs)).my_turn ==> error_text(e) == "State(NotTurnToWrite)"@
                &&& state_of(*old(hs)).my_turn && state_of(*old(hs)).messages >= MESSAGES
                    ==> error_text(e) == "State(HandshakeAlreadyFinished)"@
                &&& sends(state_of(*old(hs))) && state_of(*old(hs)).messages == 2 ==> payload@.len()
                    + overhead(2) > MAX_MESSAGE
            },
        },
;

/// `snow::HandshakeState::read_message`: takes the next message and writes its
/// payload to the front of a buffer. Whether the message is accepted depends on
/// the state and the message alone; a first message is accepted if it is long
/// enough for a key, and a message that the other side sent, after the two had
/// exchanged the same messages and refused none, is accepted and gives back its
/// payload. When all messages were exchanged so, the two sides have the same
/// keys, and each has the other's static public key. A message that is refused
/// changes neither whose turn it is nor which messages were exchanged; it may
/// change what is taken for the other side's key, except while the first message
/// is awaited. It may keep the last message of the other side from being accepted
/// later on, but not if no static key could be taken from it; and it does not keep
/// the second message from being accepted, which sets all keys anew.
pub assume_specification[ snow::HandshakeState::read_message ](
    hs: &mut snow::HandshakeState,
    message: &[u8],
    payload: &mut [u8],
) -> (r: Result<usize, snow::Error>)
    requires
        state_of(*old(hs)).pattern == PATTERN@,
        old(payload)@.len() >= message@.len(),
    ensures
        final(payload)@.len() == old(payload)@.len(),
        match r {
            Ok(n) => {
                &&& n <= old(payload)@.len()
                &&& carried(*old(hs), message@) == Some(final(payload)@.take(n as int))
                &&& !state_of(*old(hs)).my_turn
                &&& state_of(*old(hs)).messages < MESSAGES
                &&& received(
                    state_of(*old(hs)),
                    state_of(*final(hs)),
                    message@,
                    final(payload)@.take(n as int),
                )
                &&& message@.len() <= MAX_MESSAGE
                &&& state_of(*old(hs)).messages == 0 ==> message@.len() >= KEY_LEN
                &&& forall|other: snow::HandshakeState|
                    matched(state_of(*final(hs)), #[trigger] state_of(other)) ==> agreed(
                        state_of(*final(hs)),
                        state_of(other),
                    )
            },
            Err(e) => {
                &&& carried(*old(hs), message@) is None
                &&& !begins(state_of(*old(hs)), message@)
                &&& state_of(*final(hs)) == (HandshakeView {
                    remote: state_of(*final(hs)).remote,
                    clean: state_of(*final(hs)).clean,
                    ..state_of(*old(hs))
                })
                &&& state_of(*old(hs)).messages == 0 || state_of(*old(hs)).my_turn || state_of(
                    *old(hs),
                ).messages >= MESSAGES ==> state_of(*final(hs)) == state_of(*old(hs))
                &&& state_of(*old(hs)).messages == 1 || state_of(*final(hs)).remote is None
                    ==> state_of(*final(hs)).clean == state_of(*old(hs)).clean
                &&& state_of(*old(hs)).remote is Some ==> state_of(*final(hs)).remote is Some
                &&& state_of(*final(hs)).remote matches Some(k) ==> k.len() == KEY_LEN
                    || state_of(*final(hs)).remote == state_of(*old(hs)).remote
            },
        },
        forall|other: snow::HandshakeState, carries: Seq<u8>| #[trigger]
            awaits(state_of(*old(hs)), state_of(other), message@, carries) ==> r is Ok && carried(
                *old(hs),
                message@,
            ) == Some(carries),
;

/// `snow::HandshakeState::is_initiator`: whether this side sends the first message.
pub assume_specification[ snow::HandshakeState::is_initiator ](
    hs: &snow::HandshakeState,
) -> (r: bool)
    ensures
        r == state_of(*hs).initiator,
;

/// `snow::HandshakeState::is_handshake_finished`: whether all messages of the
/// pattern were exchanged.
pub assume_specification[ snow::HandshakeState::is_handshake_finished ](
    hs: &snow::HandshakeState,
) -> (r: bool)
    requires
        state_of(*hs).pattern == PATTERN@,
    ensures
        r == (state_of(*hs).messages == MESSAGES),
;

/// `snow::HandshakeState::get_remote_static`: the static public key of the
/// other side, if it is known.
#[verifier::external_body]
fn remote_of(hs: &snow::HandshakeState) -> (r: Option<Vec<u8>>)
    ensures
        match state_of(*hs).remote {
            Some(k) => r matches Some(v) && v@ == k,
            None => r is None,
        },
{
    hs.get_remote_static().map(|s| s.to_vec())
}

/// `snow::HandshakeState::into_stateless_transport_mode`: the two ciphers of a
/// finished handshake; each side encrypts under the key of its own messages.
pub assume_specification[ snow::HandshakeState::into_stateless_transport_mode ](
    hs: snow::HandshakeState,
) -> (r: Result<snow::StatelessTransportState, snow::Error>)
    requires
        state_of(hs).pattern == PATTERN@,
    ensures
        r is Ok <==> state_of(hs).messages == MESSAGES,
        r matches Ok(t) ==> transport_pattern(t) == state_of(hs).pattern,
        r matches Ok(t) ==> keys_of(t) == if state_of(hs).initiator {
            state_of(hs).keys
        } else {
            (state_of(hs).keys.1, state_of(hs).keys.0)
        },
;

/// `snow::StatelessTransportState::write_message`: encrypts under a nonce into
/// the front of a buffer. In the pattern used here both sides can. A message that
/// would be too long, or not fit, is refused, and so is the last nonce. What was
/// encrypted can be decrypted under the same key and nonce.
pub assume_specification[ snow::StatelessTransportState::write_message ](
    t: &snow::StatelessTransportState,
    nonce: u64,
    payload: &[u8],
    message: &mut [u8],
) -> (r: Result<usize, snow::Error>)
    requires
        transport_pattern(*t) == PATTERN@,
    ensures
        final(message)@.len() == old(message)@.len(),
        match r {
            Ok(n) => {
                &&& n == payload@.len() + TAG_LEN
                &&& n <= MAX_MESSAGE
                &&& n <= old(message)@.len()
                &&& nonce != u64::MAX
                &&& final(message)@.take(n as int) == sealed(keys_of(*t).0, nonce, payload@)
                &&& opened(keys_of(*t).0, nonce, final(message)@.take(n as int)) == Some(payload@)
            },
            Err(e) => if payload@.len() + TAG_LEN > MAX_MESSAGE || payload@.len() + TAG_LEN > old(
                message,
            )@.len() {
                error_text(e) == "Input"@
            } else {
                nonce == u64::MAX && error_text(e) == "State(Exhausted)"@
            },
        },
;

/// `snow::StatelessTransportState::read_message`: decrypts under a nonce into
/// the front of a buffer. In the pattern used here both sides can. A message that is
/// too long, too short for a tag, or that the buffer cannot hold is refused, and so are the last nonce and a
/// message whose tag does not verify.
pub assume_specification[ snow::StatelessTransportState::read_message ](
    t: &snow::StatelessTransportState,
    nonce: u64,
    payload: &[u8],
    message: &mut [u8],
) -> (r: Result<usize, snow::Error>)
    requires
        transport_pattern(*t) == PATTERN@,
    ensures
        final(message)@.len() == old(message)@.len(),
        match r {
            Ok(n) => {
                &&& n + TAG_LEN == payload@.len()
                &&& payload@.len() <= MAX_MESSAGE
                &&& n <= old(message)@.len()
                &&& nonce != u64::MAX
                &&& opened(keys_of(*t).1, nonce, payload@) == Some(final(message)@.take(n as int))
            },
            Err(e) => if payload@.len() > MAX_MESSAGE {
                error_text(e) == "Input"@
            } else if payload@.len() < TAG_LEN || old(message)@.len() < payload@.len() - TAG_LEN {
                error_text(e) == "Decrypt"@
            } else if nonce == u64::MAX {
                error_text(e) == "State(Exhausted)"@
            } else {
                opened(keys_of(*t).1, nonce, payload@) is None && error_text(e) == "Decrypt"@
            },
        },
;

// ---------------------------------------------------------------------------
// Handshake and session
// ---------------------------------------------------------------------------

/// Why a handshake or a message failed.
#[derive(Debug)]
pub enum NoiseError {
    /// `snow` refused, for the reason given.
    Snow(String),
    /// The handshake is not finished.
    HandshakeNotFinished,
    /// The remote static key is unavailable.
    NoRemoteStatic,
}

/// What an error says.
pub enum NoiseErrorView {
    Snow(Seq<char>),
    HandshakeNotFinished,
    NoRemoteStatic,
}

impl View for NoiseError {
    type V = NoiseErrorView;

    open spec fn view(&self) -> NoiseErrorView {
        match *self {
            NoiseError::Snow(s) => NoiseErrorView::Snow(s@),
            NoiseError::HandshakeNotFinished => NoiseErrorView::HandshakeNotFinished,
            NoiseError::NoRemoteStatic => NoiseErrorView::NoRemoteStatic,
        }
    }
}

fn noise_error(e: snow::Error) -> (r: NoiseError)
    ensures
        r@ == NoiseErrorView::Snow(error_text(e)),
{
    NoiseError::Snow(debug_text(&e))
}

/// A static X25519 keypair.
#[derive(Clone)]
pub struct Keypair {
    pub private: Vec<u8>,
    pub public: Vec<u8>,
}

fn builder<'a>() -> (r: Result<snow::Builder<'a>, NoiseError>)
    ensures
        r matches Ok(b) && set_up(b) == (PATTERN@, None::<Seq<u8>>),
{
    match params_of(PATTERN) {
        Ok(params) => Ok(new_builder(params)),
        Err(e) => Err(noise_error(e)),
    }
}

/// Generate a fresh static keypair. The private key is drawn at random; there
/// is none if no randomness is to be had.
pub fn generate_keypair() -> (r: Result<Keypair, NoiseError>)
    ensures
        match r {
            Ok(k) => k.private@.len() == KEY_LEN && k.public@.len() == KEY_LEN && k.public@
                == public_of(k.private@),
            Err(e) => e@ is Snow,
        },
{
    let b = builder()?;
    match random_keypair(&b) {
        Ok(k) => Ok(k),
        Err(e) => Err(noise_error(e)),
    }
}

/// Which side of the handshake we are.
#[derive(Debug, Clone, Copy, PartialEq, Eq, Structural)]
pub enum Role {
    Initiator,
    Responder,
}

/// A state that a handshake can be in: the two sides send in turn, and who has
/// received a message after the first knows the other's static key.
pub open spec fn in_turn(v: HandshakeView) -> bool {
    &&& v.pattern == PATTERN@
    &&& v.messages <= MESSAGES
    &&& v.exchanged.len() == v.messages
    &&& v.my_turn == (v.initiator == (v.messages % 2 == 0))
    &&& v.messages >= 2 && (v.initiator || v.messages == MESSAGES) ==> v.remote is Some
    &&& v.remote matches Some(k) ==> k.len() == KEY_LEN
}

/// In-progress Noise handshake. Drive it with `write_message`/`read_message`
/// until `is_finished()`, then call `into_transport()`.
pub struct Handshake {
    state: snow::HandshakeState,
}

impl View for Handshake {
    type V = HandshakeView;

    closed spec fn view(&self) -> HandshakeView {
        state_of(self.state)
    }
}

impl Handshake {
    /// The handshake is in a state that it can be in.
    pub open spec fn wf(&self) -> bool {
        in_turn(self@)
    }

    /// The payload of a message, if it is accepted as the next one.
    pub closed spec fn carried(&self, message: Seq<u8>) -> Option<Seq<u8>> {
        carried(self.state, message)
    }

    /// Start a handshake with our static private key.
    pub fn new(role: Role, local_private: &[u8]) -> (r: Result<Handshake, NoiseError>)
        requires
            local_private@.len() <= KEY_LEN,
        ensures
            r matches Ok(h) && h.wf() && begun(role == Role::Initiator, local_private@, h@),
    {
        let b = builder()?;
        let b = match with_private_key(b, local_private) {
            Ok(b) => b,
            Err(e) => return Err(noise_error(e)),
        };
        let built = match role {
            Role::Initiator => initiator(b),
            Role::Responder => responder(b),
        };
        match built {
            Ok(state) => Ok(Handshake { state }),
            Err(e) => Err(noise_error(e)),
        }
    }

    /// Write the next handshake message (with optional payload) into a fresh
    /// buffer.
    pub fn write_message(&mut self, payload: &[u8]) -> (r: Result<Vec<u8>, NoiseError>)
        requires
            old(self).wf(),
            payload@.len() < 0x3f_ffff_ffc0,
            payload@.len() + 256 <= usize::MAX,
        ensures
            final(self).wf(),
            match r {
                Ok(m) => {
                    &&& sends(old(self)@)
                    &&& sent(old(self)@, final(self)@, m@, payload@)
                    &&& m@.len() == payload@.len() + overhead(old(self)@.messages)
                    &&& m@.len() <= MAX_MESSAGE
                },
                Err(e) => {
                    &&& final(self)@ == (HandshakeView { clean: final(self)@.clean, ..old(self)@ })
                    &&& !sends(old(self)@) ==> final(self)@ == old(self)@
                    &&& sends(old(self)@) && old(self)@.messages == 2 ==> payload@.len() + overhead(
                        2,
                    ) > MAX_MESSAGE
                    &&& e@ is Snow
                    &&& !old(self)@.my_turn ==> e@ == NoiseErrorView::Snow(
                        "State(NotTurnToWrite)"@,
                    )
                    &&& old(self)@.my_turn && old(self)@.messages >= MESSAGES ==> e@
                        == NoiseErrorView::Snow("State(HandshakeAlreadyFinished)"@)
                },
            },
    {
        let mut buf: Vec<u8> = vec![0u8; payload.len() + 256];
        match self.state.write_message(payload, buf.as_mut_slice()) {
            Ok(n) => {
                buf.truncate(n);
                Ok(buf)
            },
            Err(e) => Err(noise_error(e)),
        }
    }

    /// Read an incoming handshake message, returning any payload it carried.
    pub fn read_message(&mut self, message: &[u8]) -> (r: Result<Vec<u8>, NoiseError>)
        requires
            old(self).wf(),
            message@.len() + 256 <= usize::MAX,
        ensures
            final(self).wf(),
            begins(old(self)@, message@) ==> old(self).carried(message@) is Some,
            forall|other: Handshake, carries: Seq<u8>| #[trigger]
                awaits(old(self)@, other@, message@, carries) ==> old(self).carried(message@)
                    == Some(carries),
            forall|other: Handshake|
                r is Ok && matched(final(self)@, #[trigger] other@) ==> agreed(
                    final(self)@,
                    other@,
                ),
            match old(self).carried(message@) {
                Some(p) => {
                    &&& r matches Ok(got)
                    &&& got@ == p
                    &&& !old(self)@.my_turn
                    &&& old(self)@.messages < MESSAGES
                    &&& received(old(self)@, final(self)@, message@, p)
                    &&& message@.len() <= MAX_MESSAGE
                },
                None => {
                    &&& r matches Err(e)
                    &&& e@ is Snow
                    &&& final(self)@ == (HandshakeView {
                        remote: final(self)@.remote,
                        clean: final(self)@.clean,
                        ..old(self)@
                    })
                    &&& old(self)@.messages == 0 ==> final(self)@ == old(self)@
                    &&& old(self)@.messages == 1 || final(self)@.remote is None
                        ==> final(self)@.clean == old(self)@.clean
                },
            },
    {
        let mut buf: Vec<u8> = vec![0u8; message.len() + 256];
        match self.state.read_message(message, buf.as_mut_slice()) {
            Ok(n) => {
                buf.truncate(n);
                Ok(buf)
            },
            Err(e) => Err(noise_error(e)),
        }
    }

    /// Whether this side sends the first message.
    pub fn is_initiator(&self) -> (r: bool)
        ensures
            r == self@.initiator,
    {
        self.state.is_initiator()
    }

    /// Whether all messages were exchanged.
    pub fn is_finished(&self) -> (r: bool)
        requires
            self.wf(),
        ensures
            r == (self@.messages == MESSAGES),
    {
        self.state.is_handshake_finished()
    }

    /// The peer's static public key (available once it has been transmitted).
    pub fn remote_static(&self) -> (r: Option<Vec<u8>>)
        ensures
            match self@.remote {
                Some(k) => r matches Some(v) && v@ == k,
                None => r is None,
            },
    {
        remote_of(&self.state)
    }

    /// Transition into the stateless transport session.
    pub fn into_transport(self) -> (r: Result<Session, NoiseError>)
        requires
            self.wf(),
        ensures
            if self@.messages != MESSAGES {
                r matches Err(e) && e@ == NoiseErrorView::HandshakeNotFinished
            } else {
                match self@.remote {
                    None => r matches Err(e) && e@ == NoiseErrorView::NoRemoteStatic,
                    Some(k) => {
                        &&& r matches Ok(s)
                        &&& s.remote() == k
                        &&& s.sending() == if self@.initiator {
                            self@.keys.0
                        } else {
                            self@.keys.1
                        }
                        &&& s.receiving() == if self@.initiator {
                            self@.keys.1
                        } else {
                            self@.keys.0
                        }
                    },
                }
            },
    {
        if !self.state.is_handshake_finished() {
            return Err(NoiseError::HandshakeNotFinished);
        }
        let remote: Vec<u8> = match remote_of(&self.state) {
            Some(k) => k,
            None => return Err(NoiseError::NoRemoteStatic),
        };
        match self.state.into_stateless_transport_mode() {
            Ok(transport) => Ok(Session { transport, remote_static: remote }),
            Err(e) => Err(noise_error(e)),
        }
    }
}

/// Encrypting a message: it can be too long, and there is a last nonce.
pub open spec fn encrypted(key: Seq<u8>, nonce: u64, plain: Seq<u8>) -> Result<
    Seq<u8>,
    NoiseErrorView,
> {
    if plain.len() + TAG_LEN > MAX_MESSAGE {
        Err(NoiseErrorView::Snow("Input"@))
    } else if nonce == u64::MAX {
        Err(NoiseErrorView::Snow("State(Exhausted)"@))
    } else {
        Ok(sealed(key, nonce, plain))
    }
}

/// Decrypting a message: what was not encrypted under the key and the nonce is
/// refused.
pub open spec fn decrypted(key: Seq<u8>, nonce: u64, message: Seq<u8>) -> Result<
    Seq<u8>,
    NoiseErrorView,
> {
    if message.len() > MAX_MESSAGE {
        Err(NoiseErrorView::Snow("Input"@))
    } else if message.len() < TAG_LEN {
        Err(NoiseErrorView::Snow("Decrypt"@))
    } else if nonce == u64::MAX {
        Err(NoiseErrorView::Snow("State(Exhausted)"@))
    } else {
        match opened(key, nonce, message) {
            Some(p) => Ok(p),
            None => Err(NoiseErrorView::Snow("Decrypt"@)),
        }
    }
}

/// The outcome of encrypting or decrypting is as stated.
pub open spec fn bytes_outcome(
    r: Result<Vec<u8>, NoiseError>,
    spec: Result<Seq<u8>, NoiseErrorView>,
) -> bool {
    match spec {
        Ok(b) => r matches Ok(v) && v@ == b,
        Err(e) => r matches Err(x) && x@ == e,
    }
}

/// A live transport-mode session. AEAD with an explicit caller-supplied nonce
/// per message, so reordered/lost datagrams are fine.
pub struct Session {
    transport: snow::StatelessTransportState,
    remote_static: Vec<u8>,
}

impl Session {
    /// The session comes from a handshake of the pattern used here.
    #[verifier::type_invariant]
    spec fn of_pattern(&self) -> bool {
        transport_pattern(self.transport) == PATTERN@
    }

    /// The key under which this side encrypts.
    pub closed spec fn sending(&self) -> Seq<u8> {
        keys_of(self.transport).0
    }

    /// The key under which this side decrypts.
    pub closed spec fn receiving(&self) -> Seq<u8> {
        keys_of(self.transport).1
    }

    /// The static public key of the other side.
    pub closed spec fn remote(&self) -> Seq<u8> {
        self.remote_static@
    }

    /// The authenticated peer static public key.
    pub fn remote_static(&self) -> (r: &[u8])
        ensures
            r@ == self.remote(),
    {
        self.remote_static.as_slice()
    }

    /// Encrypt `plaintext` under `nonce`, returning the ciphertext (incl. tag).
    /// It decrypts to `plaintext` under the same key and nonce.
    pub fn encrypt(&self, nonce: u64, plaintext: &[u8]) -> (r: Result<Vec<u8>, NoiseError>)
        ensures
            bytes_outcome(r, encrypted(self.sending(), nonce, plaintext@)),
            r matches Ok(c) ==> {
                &&& c@.len() == plaintext@.len() + TAG_LEN
                &&& decrypted(self.sending(), nonce, c@) == Ok::<Seq<u8>, NoiseErrorView>(
                    plaintext@,
                )
            },
    {
        proof {
            use_type_invariant(self);
        }
        let size: usize = match plaintext.len().checked_add(TAG_LEN) {
            Some(n) => n,
            None => return Err(NoiseError::Snow("Input".to_owned())),
        };
        let mut buf: Vec<u8> = vec![0u8; size];
        match self.transport.write_message(nonce, plaintext, buf.as_mut_slice()) {
            Ok(n) => {
                buf.truncate(n);
                Ok(buf)
            },
            Err(e) => Err(noise_error(e)),
        }
    }

    /// Decrypt `ciphertext` produced under `nonce`. Fails on tamper/wrong nonce.
    pub fn decrypt(&self, nonce: u64, ciphertext: &[u8]) -> (r: Result<Vec<u8>, NoiseError>)
        ensures
            bytes_outcome(r, decrypted(self.receiving(), nonce, ciphertext@)),
    {
        proof {
            use_type_invariant(self);
        }
        let mut buf: Vec<u8> = vec![0u8; ciphertext.len()];
        match self.transport.read_message(nonce, ciphertext, buf.as_mut_slice()) {
            Ok(n) => {
                buf.truncate(n);
                Ok(buf)
            },
            Err(e) => Err(noise_error(e)),
        }
    }
}

/// Run a full XX handshake between two parties in memory. Returns both
/// sessions: each decrypts what the other encrypts, and knows the other's static
/// key. Useful for tests and in-process wiring. It fails only for want of
/// randomness.
pub fn handshake_in_memory(initiator_key: &Keypair, responder_key: &Keypair) -> (r: Result<
    (Session, Session),
    NoiseError,
>)
    requires
        initiator_key.private@.len() <= KEY_LEN,
        responder_key.private@.len() <= KEY_LEN,
    ensures
        match r {
            Ok((a, b)) => {
                &&& a.sending() == b.receiving()
                &&& b.sending() == a.receiving()
                &&& a.remote() == public_of(responder_key.private@)
                &&& b.remote() == public_of(initiator_key.private@)
            },
            Err(e) => e@ is Snow,
        },
{
    let mut i = Handshake::new(Role::Initiator, initiator_key.private.as_slice())?;
    let mut r = Handshake::new(Role::Responder, responder_key.private.as_slice())?;

    let nothing: [u8; 0] = [];
    let m1: Vec<u8> = i.write_message(&nothing)?;  // -> e
    assert(awaits(r@, i@, m1@, nothing@));
    r.read_message(m1.as_slice())?;
    let m2: Vec<u8> = r.write_message(&nothing)?;  // <- e, ee, s, es
    assert(awaits(i@, r@, m2@, nothing@));
    i.read_message(m2.as_slice())?;
    let m3: Vec<u8> = i.write_message(&nothing)?;  // -> s, se
    assert(awaits(r@, i@, m3@, nothing@));
    r.read_message(m3.as_slice())?;
    assert(matched(r@, i@));
    Ok((i.into_transport()?, r.into_transport()?))
}

} // verus!
