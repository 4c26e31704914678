//! Control-channel messages carried in `Control` frames.
//!
//! These are session-level requests/notifications distinct from the interactive
//! data plane (state-sync + input).

use crate::text::utf8_text;
use crate::wire::{get_varint, put_varint, unzigzag, zigzag, WireError};
use vstd::prelude::*;
use vstd::slice::slice_subrange;

verus! {

/// Why a control message could not be decoded.
#[derive(Debug, PartialEq, Eq, Structural, Clone, Copy)]
pub enum ControlError {
    /// A malformed number.
    Wire(WireError),
    /// An unassigned message tag.
    Unknown(u8),
    /// The message ended inside a field.
    Eof,
    /// A text field that is not UTF-8.
    BadUtf8,
}

/// A control-channel message.
#[derive(Debug, Clone, PartialEq, Eq)]
pub enum ControlMsg {
    /// Client to server: request a login shell with this geometry/term.
    /// `agent` asks the server to expose an SSH agent socket whose connections
    /// are tunnelled back to the client's local agent.
    OpenShell { cols: u16, rows: u16, term: String, agent: bool },
    /// Either direction: window resize.
    Resize { cols: u16, rows: u16 },
    /// Server to client: the shell exited with this status.
    Exit { status: i32 },
    /// Optional second-factor prompt (server to client).
    AuthPrompt { echo: bool, prompt: String },
    /// Optional second-factor response (client to server).
    AuthResponse { data: String },
    /// Client to server: please listen on `bind_port` and forward accepted
    /// connections back to the client, which connects them to `target`.
    RemoteForward { bind_port: u16, target: String },
    /// Client to server: the client is done, and the session can be torn down.
    Bye,
    /// Server to client: the server's version.
    ServerVersion(String),
}

/// What a control message says.
pub enum ControlView {
    OpenShell { cols: u16, rows: u16, term: Seq<char>, agent: bool },
    Resize { cols: u16, rows: u16 },
    Exit { status: i32 },
    AuthPrompt { echo: bool, prompt: Seq<char> },
    AuthResponse { data: Seq<char> },
    RemoteForward { bind_port: u16, target: Seq<char> },
    Bye,
    ServerVersion(Seq<char>),
}

impl View for ControlMsg {
    type V = ControlView;

    open spec fn view(&self) -> ControlView {
        match *self {
            ControlMsg::OpenShell { cols, rows, term, agent } => ControlView::OpenShell {
                cols,
                rows,
                term: term@,
                agent,
            },
            ControlMsg::Resize { cols, rows } => ControlView::Resize { cols, rows },
            ControlMsg::Exit { status } => ControlView::Exit { status },
            ControlMsg::AuthPrompt { echo, prompt } => ControlView::AuthPrompt {
                echo,
                prompt: prompt@,
            },
            ControlMsg::AuthResponse { data } => ControlView::AuthResponse { data: data@ },
            ControlMsg::RemoteForward { bind_port, target } => ControlView::RemoteForward {
                bind_port,
                target: target@,
            },
            ControlMsg::Bye => ControlView::Bye,
            ControlMsg::ServerVersion(version) => ControlView::ServerVersion(version@),
        }
    }
}

pub const M_OPEN_SHELL: u8 = 1;

pub const M_RESIZE: u8 = 2;

pub const M_EXIT: u8 = 3;

pub const M_AUTH_PROMPT: u8 = 4;

pub const M_AUTH_RESPONSE: u8 = 5;

pub const M_REMOTE_FORWARD: u8 = 6;

pub const M_BYE: u8 = 7;

pub const M_SERVER_VERSION: u8 = 8;

// ---------------------------------------------------------------------------
// Format
// ---------------------------------------------------------------------------

/// A text with the length of its UTF-8 form in front.
pub open spec fn text_field(s: Seq<char>) -> Seq<u8> {
    crate::wire::bytes_field(vstd::utf8::encode_utf8(s))
}

pub open spec fn bool_byte(b: bool) -> Seq<u8> {
    seq![
        if b {
            1u8
        } else {
            0u8
        },
    ]
}

/// The bytes of a message: its tag, then its fields.
pub open spec fn control_bytes(m: ControlView) -> Seq<u8> {
    match m {
        ControlView::OpenShell { cols, rows, term, agent } => seq![M_OPEN_SHELL]
            + crate::wire::varint(cols as nat) + crate::wire::varint(rows as nat) + text_field(term)
            + bool_byte(agent),
        ControlView::Resize { cols, rows } => seq![M_RESIZE] + crate::wire::varint(cols as nat)
            + crate::wire::varint(rows as nat),
        ControlView::Exit { status } => seq![M_EXIT] + crate::wire::varint(
            crate::wire::zigzag_of(status as int) as nat,
        ),
        ControlView::AuthPrompt { echo, prompt } => seq![M_AUTH_PROMPT] + bool_byte(echo)
            + text_field(prompt),
        ControlView::AuthResponse { data } => seq![M_AUTH_RESPONSE] + text_field(data),
        ControlView::RemoteForward { bind_port, target } => seq![M_REMOTE_FORWARD]
            + crate::wire::varint(bind_port as nat) + text_field(target),
        ControlView::Bye => seq![M_BYE],
        ControlView::ServerVersion(version) => seq![M_SERVER_VERSION] + text_field(version),
    }
}

/// Reading a field at a position: its value and the position behind it.
pub type Field<T> = Result<(T, int), ControlError>;

/// Reading a number.
pub open spec fn number_at(buf: Seq<u8>, pos: int) -> Field<nat> {
    match crate::wire::number_at(buf, pos) {
        Ok(r) => Ok(r),
        Err(e) => Err(ControlError::Wire(e)),
    }
}

/// Reading a yes or no.
pub open spec fn bool_at(buf: Seq<u8>, pos: int) -> Field<bool> {
    if 0 <= pos < buf.len() {
        Ok((buf[pos] != 0, pos + 1))
    } else {
        Err(ControlError::Eof)
    }
}

/// Reading a text.
pub open spec fn text_at(buf: Seq<u8>, pos: int) -> Field<Seq<char>> {
    match number_at(buf, pos) {
        Err(e) => Err(e),
        Ok((n, p)) => if p + n > buf.len() {
            Err(ControlError::Eof)
        } else if !vstd::utf8::valid_utf8(buf.subrange(p, p + n)) {
            Err(ControlError::BadUtf8)
        } else {
            Ok((vstd::utf8::decode_utf8(buf.subrange(p, p + n)), p + n))
        },
    }
}

pub open spec fn low16(n: nat) -> u16 {
    (n % 0x1_0000) as u16
}

/// Reading a message, and where it ends.
pub open spec fn control_read(buf: Seq<u8>) -> Field<ControlView> {
    if buf.len() == 0 {
        Err(ControlError::Eof)
    } else if buf[0] == M_OPEN_SHELL {
        match number_at(buf, 1) {
            Err(e) => Err(e),
            Ok((cols, p)) => match number_at(buf, p) {
                Err(e) => Err(e),
                Ok((rows, p)) => match text_at(buf, p) {
                    Err(e) => Err(e),
                    Ok((term, p)) => match bool_at(buf, p) {
                        Err(e) => Err(e),
                        Ok((agent, p)) => Ok(
                            (
                                ControlView::OpenShell {
                                    cols: low16(cols),
                                    rows: low16(rows),
                                    term,
                                    agent,
                                },
                                p,
                            ),
                        ),
                    },
                },
            },
        }
    } else if buf[0] == M_RESIZE {
        match number_at(buf, 1) {
            Err(e) => Err(e),
            Ok((cols, p)) => match number_at(buf, p) {
                Err(e) => Err(e),
                Ok((rows, p)) => Ok(
                    (ControlView::Resize { cols: low16(cols), rows: low16(rows) }, p),
                ),
            },
        }
    } else if buf[0] == M_EXIT {
        match number_at(buf, 1) {
            Err(e) => Err(e),
            Ok((status, p)) => Ok(
                (
                    ControlView::Exit {
                        status: (crate::wire::unzigzag_of(status as int) as i64) as i32,
                    },
                    p,
                ),
            ),
        }
    } else if buf[0] == M_AUTH_PROMPT {
        match bool_at(buf, 1) {
            Err(e) => Err(e),
            Ok((echo, p)) => match text_at(buf, p) {
                Err(e) => Err(e),
                Ok((prompt, p)) => Ok((ControlView::AuthPrompt { echo, prompt }, p)),
            },
        }
    } else if buf[0] == M_AUTH_RESPONSE {
        match text_at(buf, 1) {
            Err(e) => Err(e),
            Ok((data, p)) => Ok((ControlView::AuthResponse { data }, p)),
        }
    } else if buf[0] == M_REMOTE_FORWARD {
        match number_at(buf, 1) {
            Err(e) => Err(e),
            Ok((port, p)) => match text_at(buf, p) {
                Err(e) => Err(e),
                Ok((target, p)) => Ok(
                    (ControlView::RemoteForward { bind_port: low16(port), target }, p),
                ),
            },
        }
    } else if buf[0] == M_BYE {
        Ok((ControlView::Bye, 1))
    } else if buf[0] == M_SERVER_VERSION {
        match text_at(buf, 1) {
            Err(e) => Err(e),
            Ok((version, p)) => Ok((ControlView::ServerVersion(version), p)),
        }
    } else {
        Err(ControlError::Unknown(buf[0]))
    }
}

/// Reading a message. Bytes behind its last field are ignored.
pub open spec fn control_at(buf: Seq<u8>) -> Result<ControlView, ControlError> {
    match control_read(buf) {
        Ok((m, _)) => Ok(m),
        Err(e) => Err(e),
    }
}

// ---------------------------------------------------------------------------
// Codec
// ---------------------------------------------------------------------------

fn put_str(out: &mut Vec<u8>, s: &str)
    ensures
        final(out)@ == old(out)@ + text_field(s@),
{
    let ghost before = out@;
    let bytes: &[u8] = s.as_bytes();
    put_varint(out, bytes.len() as u64);
    out.extend_from_slice(bytes);
    assert(out@ =~= before + text_field(s@));
}

fn put_bool(out: &mut Vec<u8>, b: bool)
    ensures
        final(out)@ == old(out)@ + bool_byte(b),
{
    let ghost before = out@;
    out.push(if b { 1 } else { 0 });
    assert(out@ =~= before + bool_byte(b));
}

fn get_number(buf: &[u8], pos: &mut usize) -> (r: Result<u64, ControlError>)
    ensures
        match number_at(buf@, *old(pos) as int) {
            Ok((v, end)) => r matches Ok(x) && x == v && *final(pos) == end && end <= buf@.len(),
            Err(e) => r == Err::<u64, ControlError>(e),
        },
{
    proof {
        reveal(crate::wire::varint_at);
        crate::wire::lemma_varint_from_end(buf@, *pos as int, 0);
    }
    match get_varint(buf, pos) {
        Ok(v) => Ok(v),
        Err(e) => Err(ControlError::Wire(e)),
    }
}

fn get_u16(buf: &[u8], pos: &mut usize) -> (r: Result<u16, ControlError>)
    ensures
        match number_at(buf@, *old(pos) as int) {
            Ok((v, end)) => r == Ok::<u16, ControlError>(low16(v)) && *final(pos) == end,
            Err(e) => r == Err::<u16, ControlError>(e),
        },
{
    let v: u64 = get_number(buf, pos)?;
    assert(v as u16 == v % 0x1_0000) by (bit_vector);
    Ok(v as u16)
}

fn get_bool(buf: &[u8], pos: &mut usize) -> (r: Result<bool, ControlError>)
    ensures
        match bool_at(buf@, *old(pos) as int) {
            Ok((b, end)) => r == Ok::<bool, ControlError>(b) && *final(pos) == end,
            Err(e) => r == Err::<bool, ControlError>(e),
        },
{
    if *pos >= buf.len() {
        return Err(ControlError::Eof);
    }
    let b: bool = buf[*pos] != 0;
    *pos += 1;
    Ok(b)
}

fn get_str(buf: &[u8], pos: &mut usize) -> (r: Result<String, ControlError>)
    ensures
        match text_at(buf@, *old(pos) as int) {
            Ok((s, end)) => r matches Ok(x) && x@ == s && *final(pos) == end,
            Err(e) => r == Err::<String, ControlError>(e),
        },
{
    let len: u64 = get_number(buf, pos)?;
    if len > (buf.len() - *pos) as u64 {
        return Err(ControlError::Eof);
    }
    let end: usize = *pos + len as usize;
    match utf8_text(slice_subrange(buf, *pos, end)) {
        Some(s) => {
            *pos = end;
            Ok(s)
        },
        None => Err(ControlError::BadUtf8),
    }
}

impl ControlMsg {
    /// The bytes of this message.
    pub fn encode(&self) -> (out: Vec<u8>)
        ensures
            out@ == control_bytes(self@),
    {
        let mut out: Vec<u8> = Vec::new();
        match self {
            ControlMsg::OpenShell { cols, rows, term, agent } => {
                out.push(M_OPEN_SHELL);
                put_varint(&mut out, *cols as u64);
                put_varint(&mut out, *rows as u64);
                put_str(&mut out, term);
                put_bool(&mut out, *agent);
            },
            ControlMsg::Resize { cols, rows } => {
                out.push(M_RESIZE);
                put_varint(&mut out, *cols as u64);
                put_varint(&mut out, *rows as u64);
            },
            ControlMsg::Exit { status } => {
                out.push(M_EXIT);
                put_varint(&mut out, zigzag(*status as i64));
            },
            ControlMsg::AuthPrompt { echo, prompt } => {
                out.push(M_AUTH_PROMPT);
                put_bool(&mut out, *echo);
                put_str(&mut out, prompt);
            },
            ControlMsg::AuthResponse { data } => {
                out.push(M_AUTH_RESPONSE);
                put_str(&mut out, data);
            },
            ControlMsg::RemoteForward { bind_port, target } => {
                out.push(M_REMOTE_FORWARD);
                put_varint(&mut out, *bind_port as u64);
                put_str(&mut out, target);
            },
            ControlMsg::Bye => {
                out.push(M_BYE);
            },
            ControlMsg::ServerVersion(version) => {
                out.push(M_SERVER_VERSION);
                put_str(&mut out, version);
            },
        }
        assert(out@ =~= control_bytes(self@));
        out
    }

    /// Read a message.
    pub fn decode(buf: &[u8]) -> (r: Result<ControlMsg, ControlError>)
        ensures
            match control_at(buf@) {
                Ok(m) => r matches Ok(x) && x@ == m,
                Err(e) => r == Err::<ControlMsg, ControlError>(e),
            },
    {
        if buf.len() == 0 {
            return Err(ControlError::Eof);
        }
        let mut pos: usize = 1;
        match buf[0] {
            M_OPEN_SHELL => {
                let cols: u16 = get_u16(buf, &mut pos)?;
                let rows: u16 = get_u16(buf, &mut pos)?;
                let term: String = get_str(buf, &mut pos)?;
                let agent: bool = get_bool(buf, &mut pos)?;
                Ok(ControlMsg::OpenShell { cols, rows, term, agent })
            },
            M_RESIZE => {
                let cols: u16 = get_u16(buf, &mut pos)?;
                let rows: u16 = get_u16(buf, &mut pos)?;
                Ok(ControlMsg::Resize { cols, rows })
            },
            M_EXIT => {
                let status: u64 = get_number(buf, &mut pos)?;
                Ok(ControlMsg::Exit { status: unzigzag(status) as i32 })
            },
            M_AUTH_PROMPT => {
                let echo: bool = get_bool(buf, &mut pos)?;
                let prompt: String = get_str(buf, &mut pos)?;
                Ok(ControlMsg::AuthPrompt { echo, prompt })
            },
            M_AUTH_RESPONSE => {
                let data: String = get_str(buf, &mut pos)?;
                Ok(ControlMsg::AuthResponse { data })
            },
            M_REMOTE_FORWARD => {
                let bind_port: u16 = get_u16(buf, &mut pos)?;
                let target: String = get_str(buf, &mut pos)?;
                Ok(ControlMsg::RemoteForward { bind_port, target })
            },
            M_BYE => Ok(ControlMsg::Bye),
            M_SERVER_VERSION => {
                let version: String = get_str(buf, &mut pos)?;
                Ok(ControlMsg::ServerVersion(version))
            },
            other => Err(ControlError::Unknown(other)),
        }
    }
}

// ---------------------------------------------------------------------------
// Round trip
// ---------------------------------------------------------------------------

proof fn lemma_number(v: nat, buf: Seq<u8>, pos: int)
    requires
        v <= u64::MAX,
        crate::wire::stands_at(buf, pos, crate::wire::varint(v)),
    ensures
        number_at(buf, pos) == Ok::<(nat, int), ControlError>(
            (v, pos + crate::wire::varint(v).len()),
        ),
{
    crate::wire::law_varint_roundtrip(v as u64, buf, pos);
}

proof fn lemma_bool(b: bool, buf: Seq<u8>, pos: int)
    requires
        crate::wire::stands_at(buf, pos, bool_byte(b)),
    ensures
        bool_at(buf, pos) == Ok::<(bool, int), ControlError>((b, pos + 1)),
{
    crate::wire::lemma_byte_roundtrip(bool_byte(b)[0], buf, pos);
}

proof fn lemma_text(s: Seq<char>, buf: Seq<u8>, pos: int)
    requires
        vstd::utf8::encode_utf8(s).len() <= u64::MAX,
        crate::wire::stands_at(buf, pos, text_field(s)),
    ensures
        text_at(buf, pos) == Ok::<(Seq<char>, int), ControlError>(
            (s, pos + text_field(s).len()),
        ),
{
    let bytes = vstd::utf8::encode_utf8(s);
    crate::wire::lemma_stands_at_split(buf, pos, crate::wire::varint(bytes.len()), bytes);
    lemma_number(bytes.len(), buf, pos);
    reveal(crate::wire::stands_at);
    vstd::utf8::encode_utf8_valid_utf8(s);
    vstd::utf8::encode_utf8_decode_utf8(s);
}

/// The texts of a message are no longer than memory can hold.
pub open spec fn control_fits(m: ControlView) -> bool {
    match m {
        ControlView::OpenShell { term, .. } => vstd::utf8::encode_utf8(term).len() <= u64::MAX,
        ControlView::AuthPrompt { prompt, .. } => vstd::utf8::encode_utf8(prompt).len() <= u64::MAX,
        ControlView::AuthResponse { data } => vstd::utf8::encode_utf8(data).len() <= u64::MAX,
        ControlView::RemoteForward { target, .. } => vstd::utf8::encode_utf8(target).len()
            <= u64::MAX,
        ControlView::ServerVersion(version) => vstd::utf8::encode_utf8(version).len() <= u64::MAX,
        _ => true,
    }
}

proof fn lemma_open_shell_roundtrip(cols: u16, rows: u16, term: Seq<char>, agent: bool)
    requires
        control_fits((ControlView::OpenShell { cols, rows, term, agent })),
    ensures
        control_read(control_bytes((ControlView::OpenShell { cols, rows, term, agent }))) == Ok::<(ControlView, int), ControlError>(
            ((ControlView::OpenShell { cols, rows, term, agent }), control_bytes((ControlView::OpenShell { cols, rows, term, agent })).len() as int),
        ),
{
    let buf = control_bytes(ControlView::OpenShell { cols, rows, term, agent });
    lemma_stands_whole(buf);
    let t = seq![M_OPEN_SHELL];
    let a = t + crate::wire::varint(cols as nat);
    let b = a + crate::wire::varint(rows as nat);
    let c = b + text_field(term);
    crate::wire::lemma_stands_at_split(buf, 0, c, bool_byte(agent));
    crate::wire::lemma_stands_at_split(buf, 0, b, text_field(term));
    crate::wire::lemma_stands_at_split(buf, 0, a, crate::wire::varint(rows as nat));
    crate::wire::lemma_stands_at_split(buf, 0, t, crate::wire::varint(cols as nat));
    lemma_number(cols as nat, buf, 1);
    lemma_number(rows as nat, buf, a.len() as int);
    lemma_text(term, buf, b.len() as int);
    lemma_bool(agent, buf, c.len() as int);
}

proof fn lemma_resize_roundtrip(cols: u16, rows: u16)
    requires
        control_fits((ControlView::Resize { cols, rows })),
    ensures
        control_read(control_bytes((ControlView::Resize { cols, rows }))) == Ok::<(ControlView, int), ControlError>(
            ((ControlView::Resize { cols, rows }), control_bytes((ControlView::Resize { cols, rows })).len() as int),
        ),
{
    let buf = control_bytes(ControlView::Resize { cols, rows });
    lemma_stands_whole(buf);
    let t = seq![M_RESIZE];
    let a = t + crate::wire::varint(cols as nat);
    crate::wire::lemma_stands_at_split(buf, 0, a, crate::wire::varint(rows as nat));
    crate::wire::lemma_stands_at_split(buf, 0, t, crate::wire::varint(cols as nat));
    lemma_number(cols as nat, buf, 1);
    lemma_number(rows as nat, buf, a.len() as int);
}

proof fn lemma_exit_roundtrip(status: i32)
    requires
        control_fits((ControlView::Exit { status })),
    ensures
        control_read(control_bytes((ControlView::Exit { status }))) == Ok::<(ControlView, int), ControlError>(
            ((ControlView::Exit { status }), control_bytes((ControlView::Exit { status })).len() as int),
        ),
{
    let buf = control_bytes(ControlView::Exit { status });
    lemma_stands_whole(buf);
    let z = crate::wire::zigzag_of(status as int) as nat;
    crate::wire::lemma_stands_at_split(buf, 0, seq![M_EXIT], crate::wire::varint(z));
    lemma_number(z, buf, 1);
}

proof fn lemma_auth_prompt_roundtrip(echo: bool, prompt: Seq<char>)
    requires
        control_fits((ControlView::AuthPrompt { echo, prompt })),
    ensures
        control_read(control_bytes((ControlView::AuthPrompt { echo, prompt }))) == Ok::<(ControlView, int), ControlError>(
            ((ControlView::AuthPrompt { echo, prompt }), control_bytes((ControlView::AuthPrompt { echo, prompt })).len() as int),
        ),
{
    let buf = control_bytes(ControlView::AuthPrompt { echo, prompt });
    lemma_stands_whole(buf);
    let t = seq![M_AUTH_PROMPT];
    let a = t + bool_byte(echo);
    crate::wire::lemma_stands_at_split(buf, 0, a, text_field(prompt));
    crate::wire::lemma_stands_at_split(buf, 0, t, bool_byte(echo));
    lemma_bool(echo, buf, 1);
    lemma_text(prompt, buf, 2);
}

proof fn lemma_auth_response_roundtrip(data: Seq<char>)
    requires
        control_fits((ControlView::AuthResponse { data })),
    ensures
        control_read(control_bytes((ControlView::AuthResponse { data }))) == Ok::<(ControlView, int), ControlError>(
            ((ControlView::AuthResponse { data }), control_bytes((ControlView::AuthResponse { data })).len() as int),
        ),
{
    let buf = control_bytes(ControlView::AuthResponse { data });
    lemma_stands_whole(buf);
    crate::wire::lemma_stands_at_split(buf, 0, seq![M_AUTH_RESPONSE], text_field(data));
    lemma_text(data, buf, 1);
}

proof fn lemma_remote_forward_roundtrip(bind_port: u16, target: Seq<char>)
    requires
        control_fits((ControlView::RemoteForward { bind_port, target })),
    ensures
        control_read(control_bytes((ControlView::RemoteForward { bind_port, target }))) == Ok::<(ControlView, int), ControlError>(
            ((ControlView::RemoteForward { bind_port, target }), control_bytes((ControlView::RemoteForward { bind_port, target })).len() as int),
        ),
{
    let buf = control_bytes(ControlView::RemoteForward { bind_port, target });
    lemma_stands_whole(buf);
    let t = seq![M_REMOTE_FORWARD];
    let a = t + crate::wire::varint(bind_port as nat);
    crate::wire::lemma_stands_at_split(buf, 0, a, text_field(target));
    crate::wire::lemma_stands_at_split(buf, 0, t, crate::wire::varint(bind_port as nat));
    lemma_number(bind_port as nat, buf, 1);
    lemma_text(target, buf, a.len() as int);
}

proof fn lemma_server_version_roundtrip(version: Seq<char>)
    requires
        control_fits(ControlView::ServerVersion(version)),
    ensures
        control_read(control_bytes(ControlView::ServerVersion(version))) == Ok::<(ControlView, int), ControlError>(
            (ControlView::ServerVersion(version), control_bytes(ControlView::ServerVersion(version)).len() as int),
        ),
{
    let buf = control_bytes(ControlView::ServerVersion(version));
    lemma_stands_whole(buf);
    crate::wire::lemma_stands_at_split(buf, 0, seq![M_SERVER_VERSION], text_field(version));
    lemma_text(version, buf, 1);
}

proof fn lemma_stands_whole(buf: Seq<u8>)
    ensures
        crate::wire::stands_at(buf, 0, buf),
{
    reveal(crate::wire::stands_at);
    assert(buf.subrange(0, buf.len() as int) =~= buf);
}

/// Decoding an encoded message gives the message.
pub proof fn law_control_roundtrip(m: ControlView)
    requires
        control_fits(m),
    ensures
        control_at(control_bytes(m)) == Ok::<ControlView, ControlError>(m),
{
    lemma_control_read(m);
}

proof fn lemma_control_read(m: ControlView)
    requires
        control_fits(m),
    ensures
        control_read(control_bytes(m)) == Ok::<(ControlView, int), ControlError>(
            (m, control_bytes(m).len() as int),
        ),
{
    match m {
        ControlView::OpenShell { cols, rows, term, agent } => {
            lemma_open_shell_roundtrip(cols, rows, term, agent);
        },
        ControlView::Resize { cols, rows } => {
            lemma_resize_roundtrip(cols, rows);
        },
        ControlView::Exit { status } => {
            lemma_exit_roundtrip(status);
        },
        ControlView::AuthPrompt { echo, prompt } => {
            lemma_auth_prompt_roundtrip(echo, prompt);
        },
        ControlView::AuthResponse { data } => {
            lemma_auth_response_roundtrip(data);
        },
        ControlView::RemoteForward { bind_port, target } => {
            lemma_remote_forward_roundtrip(bind_port, target);
        },
        ControlView::Bye => {},
        ControlView::ServerVersion(version) => {
            lemma_server_version_roundtrip(version);
        },
    }
}

/// What can be read from the front part of a buffer is read alike from all of it.
proof fn lemma_field_prefix(buf: Seq<u8>, n: int, pos: int)
    requires
        0 <= n <= buf.len(),
        0 <= pos,
    ensures
        number_at(buf.take(n), pos) matches Ok((_, p)) ==> number_at(buf, pos) == number_at(
            buf.take(n),
            pos,
        ) && 0 <= p <= n,
        text_at(buf.take(n), pos) matches Ok((_, p)) ==> text_at(buf, pos) == text_at(
            buf.take(n),
            pos,
        ) && 0 <= p <= n,
        bool_at(buf.take(n), pos) matches Ok((_, p)) ==> bool_at(buf, pos) == bool_at(
            buf.take(n),
            pos,
        ) && 0 <= p <= n,
{
    reveal(crate::wire::varint_at);
    crate::wire::lemma_varint_from_end(buf, pos, 0);
    if number_at(buf.take(n), pos) is Ok {
        crate::wire::lemma_number_prefix(buf, n, pos);
        let (len, p) = number_at(buf, pos)->Ok_0;
        if p + len <= n {
            assert(buf.take(n).subrange(p, p + len) =~= buf.subrange(p, p + len));
        }
    }
}

/// A message that is cut short is an error.
#[verifier::rlimit(40)]
pub proof fn law_cut_message_is_error(m: ControlView, n: int)
    requires
        control_fits(m),
        0 <= n < control_bytes(m).len(),
    ensures
        control_at(control_bytes(m).take(n)) is Err,
{
    let buf = control_bytes(m);
    let short = buf.take(n);
    lemma_control_read(m);
    if n > 0 {
        assert(short[0] == buf[0]);
        lemma_field_prefix(buf, n, 1);
        if let Ok((_, a)) = number_at(short, 1) {
            lemma_field_prefix(buf, n, a);
            if let Ok((_, b)) = number_at(short, a) {
                lemma_field_prefix(buf, n, b);
                if let Ok((_, c)) = text_at(short, b) {
                    lemma_field_prefix(buf, n, c);
                }
            }
        }
        if let Ok((_, a)) = bool_at(short, 1) {
            lemma_field_prefix(buf, n, a);
        }
        if control_read(short) is Ok {
            assert(control_read(buf) == control_read(short));
        }
    }
}

} // verus!
