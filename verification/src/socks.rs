//! Minimal SOCKS proxy front-end for dynamic forwarding (`-D`).
//!
//! The bytes of a local connection from a SOCKS client are negotiated here
//! (SOCKS5 with no-auth, plus SOCKS4/4a `CONNECT`); once the target `host:port`
//! is known the reply is success and the connection is handed off to the normal
//! forwarding bridge, which tunnels it to the server as a `Forward` stream. Only
//! `CONNECT` is supported (no `BIND`/`UDP ASSOCIATE`), matching typical `-D`
//! usage.

use crate::address::{push_dotted, push_ipv6};
use crate::text::{push_decimal, utf8_text};
use vstd::prelude::*;
use vstd::slice::slice_subrange;

verus! {

/// Upper bound on buffered negotiation bytes before a connection is rejected as
/// malformed (the longest valid SOCKS4a request is ~520 bytes).
pub const MAX_NEGOTIATION_BYTES: usize = 600;

/// Negotiation state of one accepted SOCKS connection.
#[derive(Debug, Clone, Copy, PartialEq, Eq, Structural)]
pub enum Phase {
    /// SOCKS5: awaiting the method-selection greeting.
    Greeting,
    /// SOCKS5: greeting done, awaiting the CONNECT request.
    Request,
    /// Target parsed; success reply queued/sent.
    Done,
    /// Unsupported/garbled request; the connection will be dropped.
    Failed,
}

/// Result of driving a [`SocksConn`] one step.
#[derive(Debug)]
pub enum Progress {
    /// Still negotiating; call again when the socket is readable.
    Pending,
    /// CONNECT target parsed and the success reply has been sent. The caller
    /// should open a forward stream to `target` and bridge the connection,
    /// writing any `leftover` bytes (early application data) into the stream
    /// first.
    Connected { target: String, leftover: Vec<u8> },
    /// Negotiation failed; drop the connection.
    Failed,
}

/// What a result says.
pub enum ProgressView {
    Pending,
    Connected { target: Seq<char>, leftover: Seq<u8> },
    Failed,
}

impl View for Progress {
    type V = ProgressView;

    open spec fn view(&self) -> ProgressView {
        match *self {
            Progress::Pending => ProgressView::Pending,
            Progress::Connected { target, leftover } => ProgressView::Connected {
                target: target@,
                leftover: leftover@,
            },
            Progress::Failed => ProgressView::Failed,
        }
    }
}

/// The state of a negotiation.
pub struct SocksView {
    /// Bytes received and not yet consumed.
    pub input: Seq<u8>,
    /// Reply bytes not yet sent.
    pub out: Seq<u8>,
    pub phase: Phase,
    /// The target, once it is known.
    pub target: Option<Seq<char>>,
}

/// The reply to a SOCKS5 request, with its code and no address.
pub open spec fn reply5(code: u8) -> Seq<u8> {
    seq![0x05, code, 0x00, 0x01, 0, 0, 0, 0, 0, 0]
}

/// The reply to a refused SOCKS4 request.
pub open spec fn refusal4() -> Seq<u8> {
    seq![0x00, 0x5B, 0, 0, 0, 0, 0, 0]
}

/// The position of the first zero byte from `from` on.
pub open spec fn zero_at(s: Seq<u8>, from: int) -> Option<int>
    decreases s.len() - from,
{
    if from < 0 || from >= s.len() {
        None
    } else if s[from] == 0 {
        Some(from)
    } else {
        zero_at(s, from + 1)
    }
}

/// Two bytes as a number, the most significant first.
pub open spec fn be16(a: u8, b: u8) -> nat {
    (a * 256 + b) as nat
}

/// The eight segments of an IPv6 address.
pub open spec fn segments(addr: Seq<u8>) -> Seq<u16> {
    Seq::new(8, |i: int| be16(addr[2 * i], addr[2 * i + 1]) as u16)
}

/// A host and a port.
pub open spec fn endpoint(host: Seq<char>, port: nat) -> Seq<char> {
    host + ":"@ + crate::text::decimal(port)
}

/// A SOCKS5 request: how long its address is, and where it begins. `None` if
/// the length is not received yet.
pub open spec fn address5(input: Seq<u8>) -> Option<(int, int)> {
    if input[3] == 0x01 {
        Some((4, 4))
    } else if input[3] == 0x04 {
        Some((16, 4))
    } else if input.len() > 4 {
        Some((input[4] as int, 5))
    } else {
        None
    }
}

/// The target that an address and a port name; a host name must be text.
pub open spec fn target5(kind: u8, addr: Seq<u8>, port: nat) -> Option<Seq<char>> {
    if kind == 0x01 {
        Some(endpoint(crate::address::dotted(addr), port))
    } else if kind == 0x04 {
        Some(endpoint("["@ + crate::address::ipv6_text(segments(addr)) + "]"@, port))
    } else if vstd::utf8::valid_utf8(addr) {
        Some(endpoint(vstd::utf8::decode_utf8(addr), port))
    } else {
        None
    }
}

impl SocksView {
    /// A SOCKS5 request refused.
    pub open spec fn refused5(self, code: u8) -> SocksView {
        SocksView { out: self.out + reply5(code), phase: Phase::Failed, ..self }
    }

    /// A SOCKS4 request refused.
    pub open spec fn refused4(self) -> SocksView {
        SocksView { out: self.out + refusal4(), phase: Phase::Failed, ..self }
    }

    /// A request granted: it is consumed, and the reply queued.
    pub open spec fn granted(self, consumed: int, reply: Seq<u8>, target: Seq<char>) -> SocksView {
        SocksView {
            input: self.input.skip(consumed),
            out: self.out + reply,
            phase: Phase::Done,
            target: Some(target),
        }
    }

    /// After what is buffered of a SOCKS5 request was parsed: version, command,
    /// a byte of no meaning, the kind of address, the address, the port.
    pub open spec fn after_request(self) -> SocksView {
        let s = self.input;
        if s.len() < 4 {
            self
        } else if s[0] != 5 {
            self.refused5(0x01)
        } else if s[3] != 0x01 && s[3] != 0x03 && s[3] != 0x04 {
            self.refused5(0x08)
        } else {
            match address5(s) {
                None => self,
                Some((len, start)) => if s.len() < start + len + 2 {
                    self
                } else if s[1] != 0x01 {
                    self.refused5(0x07)
                } else {
                    let port = be16(s[start + len], s[start + len + 1]);
                    match target5(s[3], s.subrange(start, start + len), port) {
                        Some(target) => self.granted(start + len + 2, reply5(0x00), target),
                        None => self.refused5(0x01),
                    }
                },
            }
        }
    }

    /// After what is buffered of a SOCKS4 request was parsed: version, command,
    /// port, address, a user id that ends in a zero byte and, where the address
    /// is 0.0.0.x, a host name that does too.
    pub open spec fn after_socks4(self) -> SocksView {
        let s = self.input;
        if s.len() < 9 {
            self
        } else {
            let port = be16(s[2], s[3]);
            let ip = s.subrange(4, 8);
            let reply = seq![0x00u8, 0x5A, s[2], s[3]] + ip;
            if ip == seq![0u8, 0, 0, 0] {
                self.refused4()
            } else {
                match zero_at(s, 8) {
                    None => self,
                    Some(uid) => if ip[0] == 0 && ip[1] == 0 && ip[2] == 0 {
                        match zero_at(s, uid + 1) {
                            None => self,
                            Some(end) => {
                                let host = s.subrange(uid + 1, end);
                                if !vstd::utf8::valid_utf8(host) || s[1] != 0x01 {
                                    self.refused4()
                                } else {
                                    self.granted(
                                        end + 1,
                                        reply,
                                        endpoint(vstd::utf8::decode_utf8(host), port),
                                    )
                                }
                            },
                        }
                    } else if s[1] != 0x01 {
                        self.refused4()
                    } else {
                        self.granted(uid + 1, reply, endpoint(crate::address::dotted(ip), port))
                    },
                }
            }
        }
    }

    /// After what is buffered of a greeting was parsed, and of the request that
    /// follows a SOCKS5 greeting.
    pub open spec fn after_greeting(self) -> SocksView {
        let s = self.input;
        if s.len() == 0 {
            self
        } else if s[0] == 5 {
            if s.len() < 2 {
                self
            } else if s[1] == 0 {
                SocksView { phase: Phase::Failed, ..self }
            } else if s.len() < 2 + s[1] {
                self
            } else {
                (SocksView {
                    input: s.skip(2 + s[1]),
                    out: self.out + seq![0x05u8, 0x00],
                    phase: Phase::Request,
                    ..self
                }).after_request()
            }
        } else if s[0] == 4 {
            self.after_socks4()
        } else {
            SocksView { phase: Phase::Failed, ..self }
        }
    }

    /// After what is buffered was parsed.
    pub open spec fn parsed(self) -> SocksView {
        match self.phase {
            Phase::Greeting => self.after_greeting(),
            Phase::Request => self.after_request(),
            _ => self,
        }
    }

    /// After bytes were received. A client that sends too much is dropped.
    pub open spec fn after(self, bytes: Seq<u8>) -> SocksView {
        let v = SocksView { input: self.input + bytes, ..self };
        if self.phase == Phase::Failed {
            self
        } else if v.input.len() > MAX_NEGOTIATION_BYTES {
            SocksView { phase: Phase::Failed, ..v }
        } else {
            v.parsed()
        }
    }

    /// Where the negotiation stands. A connection is handed off once the reply
    /// has been sent.
    pub open spec fn progress(self) -> ProgressView {
        match self.phase {
            Phase::Failed => ProgressView::Failed,
            Phase::Done => if self.out.len() == 0 {
                ProgressView::Connected {
                    target: match self.target {
                        Some(t) => t,
                        None => Seq::empty(),
                    },
                    leftover: self.input,
                }
            } else {
                ProgressView::Pending
            },
            _ => ProgressView::Pending,
        }
    }
}

fn find_zero(s: &[u8], from: usize) -> (r: Option<usize>)
    requires
        from <= s@.len(),
    ensures
        match r {
            Some(i) => zero_at(s@, from as int) == Some(i as int) && from <= i < s@.len(),
            None => zero_at(s@, from as int) is None,
        },
{
    let mut i: usize = from;
    while i < s.len()
        invariant
            from <= i <= s@.len(),
            zero_at(s@, from as int) == zero_at(s@, i as int),
        decreases s@.len() - i,
    {
        if s[i] == 0 {
            return Some(i);
        }
        i += 1;
    }
    None
}

fn push_all(out: &mut Vec<u8>, bytes: &[u8])
    ensures
        final(out)@ == old(out)@ + bytes@,
{
    out.extend_from_slice(bytes);
}

/// One in-progress SOCKS negotiation.
#[derive(Debug)]
pub struct SocksConn {
    inbuf: Vec<u8>,
    out: Vec<u8>,
    phase: Phase,
    target: Option<String>,
}

impl View for SocksConn {
    type V = SocksView;

    closed spec fn view(&self) -> SocksView {
        SocksView {
            input: self.inbuf@,
            out: self.out@,
            phase: self.phase,
            target: match self.target {
                Some(t) => Some(t@),
                None => None,
            },
        }
    }
}

impl SocksConn {
    /// A connection from which nothing was received.
    pub fn new() -> (r: SocksConn)
        ensures
            r@ == (SocksView {
                input: Seq::empty(),
                out: Seq::empty(),
                phase: Phase::Greeting,
                target: None,
            }),
    {
        SocksConn { inbuf: Vec::new(), out: Vec::new(), phase: Phase::Greeting, target: None }
    }

    /// Drive negotiation with bytes that were received: advance the state
    /// machine over whatever is buffered, queueing any reply.
    pub fn negotiate(&mut self, bytes: &[u8])
        ensures
            final(self)@ == old(self)@.after(bytes@),
    {
        if self.phase == Phase::Failed {
            return ;
        }
        push_all(&mut self.inbuf, bytes);
        // The largest valid request (SOCKS4a with max userid + hostname) is well
        // under the bound, so anything larger is a malformed/stalling client.
        // This also caps a peer that never sends a terminating NUL.
        if self.inbuf.len() > MAX_NEGOTIATION_BYTES {
            self.phase = Phase::Failed;
            return ;
        }
        self.try_parse();
    }

    /// Reply bytes to send.
    pub fn reply(&self) -> (r: &Vec<u8>)
        ensures
            r@ == self@.out,
    {
        &self.out
    }

    /// So many of the reply bytes were sent.
    pub fn sent(&mut self, n: usize)
        requires
            n <= old(self)@.out.len(),
        ensures
            final(self)@ == (SocksView { out: old(self)@.out.skip(n as int), ..old(self)@ }),
    {
        let rest: Vec<u8> = vstd::slice::slice_to_vec(
            slice_subrange(self.out.as_slice(), n, self.out.len()),
        );
        assert(rest@ =~= self.out@.skip(n as int));
        self.out = rest;
    }

    /// The connection broke, or the peer closed it.
    pub fn fail(&mut self)
        ensures
            final(self)@ == (SocksView { phase: Phase::Failed, ..old(self)@ }),
    {
        self.phase = Phase::Failed;
    }

    /// Whether the connection is ready, pending, or failed.
    pub fn progress(self) -> (r: Progress)
        ensures
            r@ == self@.progress(),
    {
        match self.phase {
            Phase::Failed => Progress::Failed,
            Phase::Done => {
                if self.out.len() == 0 {
                    let target: String = match self.target {
                        Some(t) => t,
                        None => String::new(),
                    };
                    assert(self.target is None ==> target@ =~= Seq::<char>::empty());
                    Progress::Connected { target, leftover: self.inbuf }
                } else {
                    Progress::Pending
                }
            },
            _ => Progress::Pending,
        }
    }

    /// Whether the connection is still negotiating.
    pub fn is_pending(&self) -> (r: bool)
        ensures
            r == (self@.progress() == ProgressView::Pending),
    {
        match self.phase {
            Phase::Failed => false,
            Phase::Done => self.out.len() > 0,
            _ => true,
        }
    }

    fn consume(&mut self, n: usize)
        requires
            n <= old(self)@.input.len(),
        ensures
            final(self)@ == (SocksView { input: old(self)@.input.skip(n as int), ..old(self)@ }),
    {
        let rest: Vec<u8> = vstd::slice::slice_to_vec(
            slice_subrange(self.inbuf.as_slice(), n, self.inbuf.len()),
        );
        assert(rest@ =~= self.inbuf@.skip(n as int));
        self.inbuf = rest;
    }

    /// Advance the parser over whatever is currently buffered.
    fn try_parse(&mut self)
        requires
            old(self)@.input.len() <= MAX_NEGOTIATION_BYTES,
        ensures
            final(self)@ == old(self)@.parsed(),
    {
        match self.phase {
            Phase::Greeting => self.parse_greeting(),
            Phase::Request => self.parse_socks5_request(),
            Phase::Done => {},
            Phase::Failed => {},
        }
    }

    fn parse_greeting(&mut self)
        requires
            old(self)@.input.len() <= MAX_NEGOTIATION_BYTES,
        ensures
            final(self)@ == old(self)@.after_greeting(),
    {
        if self.inbuf.len() == 0 {
            return ;
        }
        let ver: u8 = self.inbuf[0];
        if ver == 5 {
            // [ver, nmethods, methods...]
            if self.inbuf.len() < 2 {
                return ;
            }
            let n: u8 = self.inbuf[1];
            if n == 0 {
                self.phase = Phase::Failed;  // no methods offered
                return ;
            }
            let total: usize = 2 + n as usize;
            if self.inbuf.len() < total {
                return ;
            }
            self.consume(total);
            // Reply: version 5, method 0 (no authentication).
            let answer: [u8; 2] = [0x05, 0x00];
            push_all(&mut self.out, &answer);
            assert(answer@ =~= seq![0x05u8, 0x00]);
            self.phase = Phase::Request;
            self.parse_socks5_request();
        } else if ver == 4 {
            // SOCKS4 is a single message; parse it directly.
            self.parse_socks4();
        } else {
            self.phase = Phase::Failed;
        }
    }

    /// Parse a SOCKS5 CONNECT request, as far as it is received:
    /// [ver, cmd, rsv, atyp, addr.., port(2)].
    fn parse_socks5_request(&mut self)
        requires
            old(self)@.input.len() <= MAX_NEGOTIATION_BYTES,
        ensures
            final(self)@ == old(self)@.after_request(),
    {
        let ghost v = self@;
        if self.inbuf.len() < 4 {
            return ;
        }
        let cmd: u8 = self.inbuf[1];
        let atyp: u8 = self.inbuf[3];
        if self.inbuf[0] != 5 {
            self.fail_socks5(0x01);
            return ;
        }
        let mut addr_len: usize = 4;
        let mut addr_start: usize = 4;
        if atyp == 0x04 {
            addr_len = 16;
        } else if atyp == 0x03 {
            if self.inbuf.len() < 5 {
                return ;
            }
            addr_len = self.inbuf[4] as usize;
            addr_start = 5;
        } else if atyp != 0x01 {
            self.fail_socks5(0x08);  // address type not supported
            return ;
        }
        assert(v.input[3] == atyp);
        assert(address5(v.input) == Some((addr_len as int, addr_start as int)));
        let end: usize = addr_start + addr_len;
        let need: usize = end + 2;
        if self.inbuf.len() < need {
            return ;
        }
        if cmd != 0x01 {
            self.fail_socks5(0x07);  // command not supported (only CONNECT)
            return ;
        }
        let port: u64 = self.inbuf[end] as u64 * 256 + self.inbuf[end + 1] as u64;
        let named: Option<String> = target_of(
            atyp,
            slice_subrange(self.inbuf.as_slice(), addr_start, end),
            port,
        );
        match named {
            Some(target) => {
                self.consume(need);
                // Success reply: ver 5, rep 0, rsv, atyp ipv4, BND 0.0.0.0:0.
                self.push_reply5(0x00);
                self.target = Some(target);
                self.phase = Phase::Done;
            },
            None => self.fail_socks5(0x01),
        }
    }

    fn push_reply5(&mut self, rep: u8)
        ensures
            final(self)@ == (SocksView { out: old(self)@.out + reply5(rep), ..old(self)@ }),
    {
        let answer: [u8; 10] = [0x05, rep, 0x00, 0x01, 0, 0, 0, 0, 0, 0];
        assert(answer@ =~= reply5(rep));
        push_all(&mut self.out, &answer);
    }

    /// Queue a SOCKS5 failure reply and mark the connection failed.
    fn fail_socks5(&mut self, rep: u8)
        ensures
            final(self)@ == old(self)@.refused5(rep),
    {
        self.push_reply5(rep);
        self.phase = Phase::Failed;
    }

    /// Parse a SOCKS4/4a CONNECT request, as far as it is received:
    /// [4, cmd, port(2), ip(4), userid, 0x00, (host, 0x00 for 4a)].
    fn parse_socks4(&mut self)
        ensures
            final(self)@ == old(self)@.after_socks4(),
    {
        let ghost v = self@;
        if self.inbuf.len() < 9 {
            return ;  // need at least the fixed header + the userid terminator
        }
        let cmd: u8 = self.inbuf[1];
        let port: u64 = self.inbuf[2] as u64 * 256 + self.inbuf[3] as u64;
        let a: u8 = self.inbuf[4];
        let b: u8 = self.inbuf[5];
        let c: u8 = self.inbuf[6];
        let d: u8 = self.inbuf[7];
        let ghost ip = v.input.subrange(4, 8);
        assert(ip =~= seq![a, b, c, d]);
        // The all-zero IP is not a valid destination (and isn't the 0.0.0.x
        // SOCKS4a marker); reject rather than forward to 0.0.0.0.
        if a == 0 && b == 0 && c == 0 && d == 0 {
            self.fail_socks4();
            return ;
        }
        assert(ip != seq![0u8, 0, 0, 0]) by {
            assert(ip[0] == a && ip[1] == b && ip[2] == c && ip[3] == d);
            let z = seq![0u8, 0, 0, 0];
            assert(z[0] == 0 && z[1] == 0 && z[2] == 0 && z[3] == 0);
        }
        // userid is NUL-terminated starting at offset 8.
        let uid_nul: usize = match find_zero(self.inbuf.as_slice(), 8) {
            Some(i) => i,
            None => return ,  // userid not fully received yet
        };
        let mut target: String = String::new();
        let mut consumed: usize = uid_nul + 1;
        // SOCKS4a: IP 0.0.0.x (x != 0) means a hostname follows the userid.
        if a == 0 && b == 0 && c == 0 {
            let end: usize = match find_zero(self.inbuf.as_slice(), uid_nul + 1) {
                Some(i) => i,
                None => return ,  // hostname not fully received yet
            };
            match utf8_text(slice_subrange(self.inbuf.as_slice(), uid_nul + 1, end)) {
                Some(s) => {
                    target = s;
                },
                None => {
                    self.fail_socks4();
                    return ;
                },
            }
            consumed = end + 1;
        } else {
            push_dotted(&mut target, a, b, c, d);
            assert(target@ =~= crate::address::dotted(ip));
        }
        let ghost host = target@;
        if cmd != 0x01 {
            self.fail_socks4();
            return ;
        }
        target.push_str(":");
        push_decimal(&mut target, port);
        assert(target@ =~= endpoint(host, port as nat));
        // Granted reply: VN 0, CD 0x5A, then port + ip echoed back.
        let answer: [u8; 8] = [0x00, 0x5A, self.inbuf[2], self.inbuf[3], a, b, c, d];
        assert(answer@ =~= seq![0x00u8, 0x5A, v.input[2], v.input[3]] + ip);
        self.consume(consumed);
        push_all(&mut self.out, &answer);
        self.target = Some(target);
        self.phase = Phase::Done;
    }

    fn fail_socks4(&mut self)
        ensures
            final(self)@ == old(self)@.refused4(),
    {
        // VN 0, CD 0x5B (request rejected/failed), then zeros.
        let answer: [u8; 8] = [0x00, 0x5B, 0, 0, 0, 0, 0, 0];
        assert(answer@ =~= refusal4());
        push_all(&mut self.out, &answer);
        self.phase = Phase::Failed;
    }
}

fn target_of(kind: u8, addr: &[u8], port: u64) -> (r: Option<String>)
    requires
        kind == 0x01 ==> addr@.len() == 4,
        kind == 0x04 ==> addr@.len() == 16,
    ensures
        match target5(kind, addr@, port as nat) {
            Some(t) => r matches Some(s) && s@ == t,
            None => r is None,
        },
{
    let mut target: String = String::new();
    if kind == 0x01 {
        push_dotted(&mut target, addr[0], addr[1], addr[2], addr[3]);
        assert(seq![addr@[0], addr@[1], addr@[2], addr@[3]] =~= addr@);
        assert(target@ =~= crate::address::dotted(addr@));
    } else if kind == 0x04 {
        let seg: Vec<u16> = segments_of(addr);
        target.push_str("[");
        push_ipv6(&mut target, seg.as_slice());
        target.push_str("]");
        assert(target@ =~= "["@ + crate::address::ipv6_text(segments(addr@)) + "]"@);
    } else {
        match utf8_text(addr) {
            Some(s) => {
                target = s;
            },
            None => return None,
        }
    }
    let ghost host = target@;
    target.push_str(":");
    push_decimal(&mut target, port);
    assert(target@ =~= endpoint(host, port as nat));
    Some(target)
}

fn segments_of(addr: &[u8]) -> (r: Vec<u16>)
    requires
        addr@.len() == 16,
    ensures
        r@ == segments(addr@),
{
    let mut seg: Vec<u16> = Vec::new();
    let mut i: usize = 0;
    while i < 8
        invariant
            i <= 8,
            addr@.len() == 16,
            seg@.len() == i,
            forall|j: int| 0 <= j < i ==> seg@[j] == segments(addr@)[j],
        decreases 8 - i,
    {
        seg.push(addr[2 * i] as u16 * 256 + addr[2 * i + 1] as u16);
        i += 1;
    }
    assert(seg@ =~= segments(addr@));
    seg
}

// ---------------------------------------------------------------------------
// Laws
// ---------------------------------------------------------------------------

/// It makes no difference how the bytes of a negotiation are cut up on their
/// way: as long as the client stays within the bound, receiving them in two
/// parts leaves the same state as receiving them at once, unless the request
/// was complete before the second part, which is then left to the application.
pub proof fn law_parts_add_up(v: SocksView, a: Seq<u8>, b: Seq<u8>)
    requires
        v.input.len() + a.len() + b.len() <= MAX_NEGOTIATION_BYTES,
        v.after(a).phase != Phase::Failed,
        v.phase == Phase::Greeting || v.phase == Phase::Request,
    ensures
        v.after(a).after(b) == v.after(a + b),
{
    let both = v.input + (a + b);
    assert(both =~= v.input + a + b);
    let va = SocksView { input: v.input + a, ..v };
    let vab = SocksView { input: both, ..v };
    match v.phase {
        Phase::Greeting => lemma_greeting_more(va, b),
        _ => lemma_request_more(va, b),
    }
}

proof fn lemma_zero_more(s: Seq<u8>, b: Seq<u8>, from: int)
    requires
        0 <= from,
    ensures
        zero_at(s, from) matches Some(i) ==> zero_at(s + b, from) == Some(i) && from <= i < s.len(),
    decreases s.len() - from,
{
    if from < s.len() {
        assert((s + b)[from] == s[from]);
        if s[from] != 0 {
            lemma_zero_more(s, b, from + 1);
        }
    }
}

proof fn lemma_request_more(v: SocksView, b: Seq<u8>)
    requires
        v.input.len() + b.len() <= MAX_NEGOTIATION_BYTES,
        v.phase == Phase::Request,
        v.after_request().phase != Phase::Failed,
    ensures
        v.after_request().after(b) == (SocksView { input: v.input + b, ..v }).after_request(),
{
    let s = v.input;
    let t = s + b;
    let w = SocksView { input: t, ..v };
    if v.after_request() == v {
        assert(w == (SocksView { input: v.input + b, ..v }));
    } else {
        assert(s.len() >= 4);
        assert(t[0] == s[0] && t[1] == s[1] && t[3] == s[3]);
        let (len, start) = address5(s).unwrap();
        assert(s.len() > 4 ==> t[4] == s[4]);
        assert(address5(t) == address5(s));
        assert(t[start + len] == s[start + len] && t[start + len + 1] == s[start + len + 1]);
        assert(t.subrange(start, start + len) =~= s.subrange(start, start + len));
        assert(t.skip(start + len + 2) =~= s.skip(start + len + 2) + b);
    }
}

proof fn lemma_socks4_more(v: SocksView, b: Seq<u8>)
    requires
        v.input.len() + b.len() <= MAX_NEGOTIATION_BYTES,
        v.phase == Phase::Greeting,
        v.input.len() > 0,
        v.input[0] == 4,
        v.after_socks4().phase != Phase::Failed,
    ensures
        v.after_socks4().after(b) == (SocksView { input: v.input + b, ..v }).after_socks4(),
{
    let s = v.input;
    let t = s + b;
    let w = SocksView { input: t, ..v };
    assert(t[0] == s[0]);
    if v.after_socks4() == v {
    } else {
        assert(s.len() >= 9);
        assert(t[1] == s[1] && t[2] == s[2] && t[3] == s[3]);
        assert(t.subrange(4, 8) =~= s.subrange(4, 8));
        lemma_zero_more(s, b, 8);
        let uid = zero_at(s, 8).unwrap();
        lemma_zero_more(s, b, uid + 1);
        let ip = s.subrange(4, 8);
        if ip[0] == 0 && ip[1] == 0 && ip[2] == 0 {
            let end = zero_at(s, uid + 1).unwrap();
            assert(t.subrange(uid + 1, end) =~= s.subrange(uid + 1, end));
            assert(t.skip(end + 1) =~= s.skip(end + 1) + b);
        } else {
            assert(t.skip(uid + 1) =~= s.skip(uid + 1) + b);
        }
    }
}

proof fn lemma_greeting_more(v: SocksView, b: Seq<u8>)
    requires
        v.input.len() + b.len() <= MAX_NEGOTIATION_BYTES,
        v.phase == Phase::Greeting,
        v.after_greeting().phase != Phase::Failed,
    ensures
        v.after_greeting().after(b) == (SocksView { input: v.input + b, ..v }).after_greeting(),
{
    let s = v.input;
    let t = s + b;
    let w = SocksView { input: t, ..v };
    if s.len() > 0 {
        assert(t[0] == s[0]);
        if s[0] == 4 {
            lemma_socks4_more(v, b);
        } else if s.len() >= 2 {
            assert(t[1] == s[1]);
            if s.len() >= 2 + s[1] {
                assert(t.skip(2 + s[1]) =~= s.skip(2 + s[1]) + b);
                lemma_request_more(
                    SocksView {
                        input: s.skip(2 + s[1]),
                        out: v.out + seq![0x05u8, 0x00],
                        phase: Phase::Request,
                        ..v
                    },
                    b,
                );
            }
        }
    }
}

/// Only CONNECT is granted: a request with another command never leads to a
/// target.
pub proof fn law_only_connect(v: SocksView)
    requires
        v.phase == Phase::Request,
        v.input.len() >= 2,
        v.input[1] != 0x01,
    ensures
        v.parsed().phase == Phase::Request || v.parsed().phase == Phase::Failed,
        v.parsed().target == v.target,
{
}

/// A SOCKS4 CONNECT request is granted with the same target as a SOCKS5 request of an
/// IPv4 address with the same bytes and the same port: the octets in the order
/// received, then the port. What follows either request is left to the application.
pub proof fn law_same_target_in_both_versions(
    a: u8,
    b: u8,
    c: u8,
    d: u8,
    high: u8,
    low: u8,
    user: Seq<u8>,
    rest: Seq<u8>,
)
    requires
        !(a == 0 && b == 0 && c == 0),
        forall|i: int| 0 <= i < user.len() ==> #[trigger] user[i] != 0,
        user.len() + rest.len() + 10 <= MAX_NEGOTIATION_BYTES,
    ensures
        ({
            let four = SocksView {
                input: Seq::empty(),
                out: Seq::empty(),
                phase: Phase::Greeting,
                target: None,
            };
            let five = SocksView { phase: Phase::Request, ..four };
            let g4 = four.after(
                seq![4u8, 1u8, high, low, a, b, c, d] + user + seq![0u8] + rest,
            );
            let g5 = five.after(seq![5u8, 1u8, 0u8, 1u8, a, b, c, d, high, low] + rest);
            &&& g4.phase == Phase::Done
            &&& g5.phase == Phase::Done
            &&& g4.target == g5.target
            &&& g4.target == Some(
                crate::text::decimal(a as nat) + "."@ + crate::text::decimal(b as nat) + "."@
                    + crate::text::decimal(c as nat) + "."@ + crate::text::decimal(d as nat) + ":"@
                    + crate::text::decimal((high * 256 + low) as nat),
            )
            &&& g4.input == rest
            &&& g5.input == rest
            &&& g4.out == seq![0u8, 0x5Au8, high, low, a, b, c, d]
            &&& g5.out == seq![5u8, 0u8, 0u8, 1u8, 0u8, 0u8, 0u8, 0u8, 0u8, 0u8]
        }),
{
    let s4 = seq![4u8, 1u8, high, low, a, b, c, d] + user + seq![0u8] + rest;
    let s5 = seq![5u8, 1u8, 0u8, 1u8, a, b, c, d, high, low] + rest;
    assert(Seq::<u8>::empty() + s4 =~= s4);
    assert(Seq::<u8>::empty() + s5 =~= s5);
    assert(s4.subrange(4, 8) =~= seq![a, b, c, d]);
    assert(s5.subrange(4, 8) =~= seq![a, b, c, d]);
    assert(s4.subrange(4, 8)[0] == a && s4.subrange(4, 8)[1] == b && s4.subrange(4, 8)[2] == c);
    let n = user.len() as int;
    lemma_first_zero(s4, 8, 8 + n);
    assert(s4.skip(8 + n + 1) =~= rest);
    assert(s5.skip(10) =~= rest);
    assert(Seq::<u8>::empty() + (seq![0u8, 0x5Au8, high, low] + s4.subrange(4, 8)) =~= seq![
        0u8,
        0x5Au8,
        high,
        low,
        a,
        b,
        c,
        d,
    ]);
    assert(Seq::<u8>::empty() + reply5(0) =~= reply5(0));
}

/// The first zero byte is the one before which there is none.
proof fn lemma_first_zero(s: Seq<u8>, from: int, at: int)
    requires
        0 <= from <= at < s.len(),
        s[at] == 0,
        forall|i: int| from <= i < at ==> #[trigger] s[i] != 0,
    ensures
        zero_at(s, from) == Some(at),
    decreases at - from,
{
    if from < at {
        lemma_first_zero(s, from + 1, at);
    }
}

/// A host name is handed on as the client wrote it, with the port behind it: in a SOCKS5
/// request with its length before it, and in a SOCKS4 request for an address 0.0.0.x
/// with a zero byte behind it.
pub proof fn law_host_name_is_handed_on(host: Seq<u8>, x: u8, high: u8, low: u8, rest: Seq<u8>)
    requires
        vstd::utf8::valid_utf8(host),
        host.len() <= 255,
        x != 0,
        forall|i: int| 0 <= i < host.len() ==> #[trigger] host[i] != 0,
        host.len() + rest.len() + 10 <= MAX_NEGOTIATION_BYTES,
    ensures
        ({
            let four = SocksView {
                input: Seq::empty(),
                out: Seq::empty(),
                phase: Phase::Greeting,
                target: None,
            };
            let five = SocksView { phase: Phase::Request, ..four };
            let g4 = four.after(
                seq![4u8, 1u8, high, low, 0u8, 0u8, 0u8, x, 0u8] + host + seq![0u8] + rest,
            );
            let g5 = five.after(
                seq![5u8, 1u8, 0u8, 3u8, host.len() as u8] + host + seq![high, low] + rest,
            );
            &&& g4.phase == Phase::Done
            &&& g5.phase == Phase::Done
            &&& g4.target == g5.target
            &&& g5.target == Some(
                vstd::utf8::decode_utf8(host) + ":"@ + crate::text::decimal(
                    (high * 256 + low) as nat,
                ),
            )
            &&& g4.input == rest
            &&& g5.input == rest
        }),
{
    let n = host.len() as int;
    let s4 = seq![4u8, 1u8, high, low, 0u8, 0u8, 0u8, x, 0u8] + host + seq![0u8] + rest;
    let s5 = seq![5u8, 1u8, 0u8, 3u8, host.len() as u8] + host + seq![high, low] + rest;
    assert(Seq::<u8>::empty() + s4 =~= s4);
    assert(Seq::<u8>::empty() + s5 =~= s5);
    assert(s4.subrange(4, 8) =~= seq![0u8, 0u8, 0u8, x]);
    assert(s4.subrange(4, 8)[3] == x);
    lemma_first_zero(s4, 8, 8);
    lemma_first_zero(s4, 9, 9 + n);
    assert(s4.subrange(9, 9 + n) =~= host);
    assert(s4.skip(9 + n + 1) =~= rest);
    assert(s5.subrange(5, 5 + n) =~= host);
    assert(s5.skip(5 + n + 2) =~= rest);
    assert(s5[5 + n] == high && s5[5 + n + 1] == low);
}

/// A SOCKS5 client that offers any method is told that none is required; its request is
/// then awaited. One that offers none, and one of another version, is dropped.
pub proof fn law_greeting_is_answered(methods: Seq<u8>, version: u8)
    requires
        methods.len() <= 255,
    ensures
        ({
            let fresh = SocksView {
                input: Seq::empty(),
                out: Seq::empty(),
                phase: Phase::Greeting,
                target: None,
            };
            let g = fresh.after(seq![version, methods.len() as u8] + methods);
            &&& version == 5 && methods.len() > 0 ==> {
                &&& g.phase == Phase::Request
                &&& g.out == seq![5u8, 0u8]
                &&& g.input.len() == 0
                &&& g.target is None
            }
            &&& version == 5 && methods.len() == 0 || version != 5 && version != 4 ==> g.progress()
                is Failed
        }),
{
    let s = seq![version, methods.len() as u8] + methods;
    assert(Seq::<u8>::empty() + s =~= s);
    assert(Seq::<u8>::empty() + seq![5u8, 0u8] =~= seq![5u8, 0u8]);
}

/// A granted request is handed off only when its reply has been sent, with the target
/// and what came behind the request.
pub proof fn law_reply_before_hand_off(v: SocksView)
    requires
        v.phase == Phase::Done,
        v.target is Some,
    ensures
        v.out.len() > 0 ==> v.progress() is Pending,
        v.out.len() == 0 ==> v.progress() == (ProgressView::Connected {
            target: v.target->0,
            leftover: v.input,
        }),
{
}

/// An IPv6 address in a request is eight segments of two bytes, the most significant
/// first, and is handed on in brackets with the port behind it.
pub proof fn law_ipv6_target(addr: Seq<u8>, high: u8, low: u8, rest: Seq<u8>)
    requires
        addr.len() == 16,
        rest.len() + 22 <= MAX_NEGOTIATION_BYTES,
    ensures
        ({
            let five = SocksView {
                input: Seq::empty(),
                out: Seq::empty(),
                phase: Phase::Request,
                target: None,
            };
            let g = five.after(seq![5u8, 1u8, 0u8, 4u8] + addr + seq![high, low] + rest);
            let seg = |i: int| (addr[2 * i] * 256 + addr[2 * i + 1]) as u16;
            let segs = seq![seg(0), seg(1), seg(2), seg(3), seg(4), seg(5), seg(6), seg(7)];
            &&& g.phase == Phase::Done
            &&& g.target == Some(
                "["@ + crate::address::ipv6_text(segs) + "]"@ + ":"@ + crate::text::decimal(
                    (high * 256 + low) as nat,
                ),
            )
            &&& g.input == rest
        }),
{
    let s = seq![5u8, 1u8, 0u8, 4u8] + addr + seq![high, low] + rest;
    assert(Seq::<u8>::empty() + s =~= s);
    assert(s.subrange(4, 20) =~= addr);
    assert(s.skip(22) =~= rest);
    assert(s[20] == high && s[21] == low);
    let seg = |i: int| (addr[2 * i] * 256 + addr[2 * i + 1]) as u16;
    assert(segments(addr) =~= seq![
        seg(0),
        seg(1),
        seg(2),
        seg(3),
        seg(4),
        seg(5),
        seg(6),
        seg(7),
    ]);
}

/// A request that is refused is told so, by version, and leads to no target: one of
/// another command, one for an address of a kind that is not known, and a SOCKS4 request
/// for no address.
pub proof fn law_refusals(command: u8, kind: u8, addr: Seq<u8>)
    requires
        addr.len() == 4,
    ensures
        ({
            let five = SocksView {
                input: Seq::empty(),
                out: Seq::empty(),
                phase: Phase::Request,
                target: None,
            };
            let four = SocksView { phase: Phase::Greeting, ..five };
            let c = five.after(seq![5u8, command, 0u8, 1u8] + addr + seq![0u8, 80u8]);
            let k = five.after(seq![5u8, 1u8, 0u8, kind] + addr + seq![0u8, 80u8]);
            let z = four.after(seq![4u8, command, 0u8, 80u8, 0u8, 0u8, 0u8, 0u8, 0u8]);
            let d = four.after(seq![4u8, command, 0u8, 80u8] + addr + seq![0u8]);
            &&& command != 1 ==> c.progress() is Failed && c.target is None && c.out
                == seq![5u8, 7u8, 0u8, 1u8, 0u8, 0u8, 0u8, 0u8, 0u8, 0u8]
            &&& kind != 1 && kind != 3 && kind != 4 ==> k.progress() is Failed && k.target is None
                && k.out == seq![5u8, 8u8, 0u8, 1u8, 0u8, 0u8, 0u8, 0u8, 0u8, 0u8]
            &&& z.progress() is Failed && z.target is None && z.out == seq![
                0u8,
                0x5Bu8,
                0u8,
                0u8,
                0u8,
                0u8,
                0u8,
                0u8,
            ]
            &&& command != 1 && addr[0] != 0 ==> d.progress() is Failed && d.target is None
        }),
{
    let e = Seq::<u8>::empty();
    let c = seq![5u8, command, 0u8, 1u8] + addr + seq![0u8, 80u8];
    let k = seq![5u8, 1u8, 0u8, kind] + addr + seq![0u8, 80u8];
    let z = seq![4u8, command, 0u8, 80u8, 0u8, 0u8, 0u8, 0u8, 0u8];
    let d = seq![4u8, command, 0u8, 80u8] + addr + seq![0u8];
    assert(e + c =~= c && e + k =~= k && e + z =~= z && e + d =~= d);
    assert(e + reply5(7) =~= reply5(7) && e + reply5(8) =~= reply5(8) && e + refusal4()
        =~= refusal4());
    assert(z.subrange(4, 8) =~= seq![0u8, 0, 0, 0]);
    assert(d.subrange(4, 8) =~= addr);
    if addr[0] != 0 {
        assert(d.subrange(4, 8)[0] != 0);
        assert(seq![0u8, 0, 0, 0][0] == 0);
        lemma_first_zero(d, 8, 8);
    }
}

} // verus!
