//! Commands that run on the server without a terminal: their output stays byte
//! for byte intact, standard output and standard error are kept apart, and the
//! exit status is told when they end. The process and its pipes are the caller's.

use crate::client::{ClientCore, ClientView};
use crate::error::{RuntimeError, RuntimeErrorView};
use crate::forward::{Io, SEND_CAP};
use crate::server::ServerCore;
use crate::stream::{EventView, MuxView, StreamEvent};
use crate::transport::SessionId;
use crate::wire::StreamKind;
use vstd::prelude::*;
use vstd::slice::{slice_subrange, slice_to_vec};

verus! {

// ---------------------------------------------------------------------------
// A running command
// ---------------------------------------------------------------------------

/// The state of a running command.
pub struct ExecView {
    /// Bytes that wait to be written to its standard input.
    pub stdin_buf: Seq<u8>,
    pub stdin_open: bool,
    pub stdout_open: bool,
    pub stderr_open: bool,
    pub exit: Option<i32>,
}

impl ExecView {
    /// A command that was just started.
    pub open spec fn fresh() -> ExecView {
        ExecView {
            stdin_buf: Seq::empty(),
            stdin_open: true,
            stdout_open: true,
            stderr_open: true,
            exit: None,
        }
    }

    /// The state after an attempt to write to its standard input.
    pub open spec fn after_write(self, e: Io) -> ExecView {
        if !self.stdin_open {
            ExecView { stdin_buf: Seq::empty(), ..self }
        } else {
            match e {
                Io::Moved(n) => ExecView { stdin_buf: self.stdin_buf.skip(n as int), ..self },
                Io::Failed => ExecView { stdin_buf: Seq::empty(), stdin_open: false, ..self },
                _ => self,
            }
        }
    }

    /// It ended, and all of its output was read.
    pub open spec fn finished(self) -> bool {
        self.exit is Some && !self.stdout_open && !self.stderr_open
    }
}

/// A pipe that was read to this attempt is at its end.
pub open spec fn at_end(e: Io) -> bool {
    e == Io::Moved(0) || e == Io::Failed
}

/// A running command.
#[derive(Debug)]
pub struct ExecProc {
    stdin_buf: Vec<u8>,
    stdin_open: bool,
    stdout_open: bool,
    stderr_open: bool,
    exit: Option<i32>,
}

impl View for ExecProc {
    type V = ExecView;

    closed spec fn view(&self) -> ExecView {
        ExecView {
            stdin_buf: self.stdin_buf@,
            stdin_open: self.stdin_open,
            stdout_open: self.stdout_open,
            stderr_open: self.stderr_open,
            exit: self.exit,
        }
    }
}

/// Reading goes on after this attempt.
fn goes_on(e: Io) -> (r: bool)
    ensures
        r == crate::forward::reads_on(e),
{
    match e {
        Io::Moved(n) => n > 0,
        Io::WouldBlock => false,
        Io::Interrupted => true,
        Io::Failed => false,
    }
}

fn ends(e: Io) -> (r: bool)
    ensures
        r == at_end(e),
{
    match e {
        Io::Moved(n) => n == 0,
        Io::WouldBlock => false,
        Io::Interrupted => false,
        Io::Failed => true,
    }
}

impl ExecProc {
    /// A command that was just started, with all of its pipes open.
    pub fn spawned() -> (r: ExecProc)
        ensures
            r@ == ExecView::fresh(),
    {
        let r = ExecProc {
            stdin_buf: Vec::new(),
            stdin_open: true,
            stdout_open: true,
            stderr_open: true,
            exit: None,
        };
        assert(r@.stdin_buf =~= Seq::<u8>::empty());
        r
    }

    /// Note what came of reading from standard output. True if reading goes on.
    pub fn read_stdout(&mut self, e: Io) -> (r: bool)
        ensures
            final(self)@ == (ExecView {
                stdout_open: old(self)@.stdout_open && !at_end(e),
                ..old(self)@
            }),
            r == crate::forward::reads_on(e),
    {
        if ends(e) {
            self.stdout_open = false;
        }
        goes_on(e)
    }

    /// Note what came of reading from standard error. True if reading goes on.
    pub fn read_stderr(&mut self, e: Io) -> (r: bool)
        ensures
            final(self)@ == (ExecView {
                stderr_open: old(self)@.stderr_open && !at_end(e),
                ..old(self)@
            }),
            r == crate::forward::reads_on(e),
    {
        if ends(e) {
            self.stderr_open = false;
        }
        goes_on(e)
    }

    /// Queue bytes for standard input, unless it is closed.
    pub fn write_stdin(&mut self, data: &[u8])
        ensures
            final(self)@ == if old(self)@.stdin_open {
                ExecView { stdin_buf: old(self)@.stdin_buf + data@, ..old(self)@ }
            } else {
                old(self)@
            },
    {
        if self.stdin_open {
            self.stdin_buf.extend_from_slice(data);
            assert(self@.stdin_buf =~= old(self)@.stdin_buf + data@);
        }
    }

    /// The bytes that wait to be written to standard input.
    pub fn waiting(&self) -> (r: &[u8])
        ensures
            r@ == self@.stdin_buf,
    {
        self.stdin_buf.as_slice()
    }

    /// Note what came of writing the waiting bytes. True if writing goes on.
    pub fn flush_stdin(&mut self, e: Io) -> (r: bool)
        requires
            e matches Io::Moved(n) ==> n <= old(self)@.stdin_buf.len(),
        ensures
            final(self)@ == old(self)@.after_write(e),
            r == (old(self)@.stdin_open && crate::forward::reads_on(e)
                && final(self)@.stdin_buf.len() > 0),
    {
        if !self.stdin_open {
            self.stdin_buf = Vec::new();
            assert(self@.stdin_buf =~= Seq::<u8>::empty());
            return false;
        }
        match e {
            Io::Moved(n) => {
                let rest: Vec<u8> = slice_to_vec(
                    slice_subrange(self.stdin_buf.as_slice(), n, self.stdin_buf.len()),
                );
                assert(rest@ =~= self.stdin_buf@.skip(n as int));
                self.stdin_buf = rest;
            },
            Io::Failed => {
                self.stdin_open = false;
                self.stdin_buf = Vec::new();
                assert(self@.stdin_buf =~= Seq::<u8>::empty());
            },
            _ => {},
        }
        goes_on(e) && self.stdin_buf.len() > 0
    }

    /// Bytes staged for standard input but not yet written to the pipe.
    pub fn stdin_buffered(&self) -> (r: usize)
        ensures
            r == self@.stdin_buf.len(),
    {
        self.stdin_buf.len()
    }

    /// Standard input is still open.
    pub fn stdin_open(&self) -> (r: bool)
        ensures
            r == self@.stdin_open,
    {
        self.stdin_open
    }

    /// Close standard input.
    pub fn close_stdin(&mut self)
        ensures
            final(self)@ == (ExecView { stdin_open: false, ..old(self)@ }),
    {
        self.stdin_open = false;
    }

    /// Note how the process ended: with a code, or by a signal. The first report
    /// counts. Returns the status.
    pub fn poll_exit(&mut self, ended: Option<(Option<i32>, Option<i32>)>) -> (r: Option<i32>)
        requires
            ended matches Some(x) ==> (x.1 matches Some(s) ==> s <= i32::MAX - 128),
        ensures
            r == final(self)@.exit,
            final(self)@ == (ExecView {
                exit: match old(self)@.exit {
                    Some(c) => Some(c),
                    None => match ended {
                        Some(x) => Some(crate::login::status_of(x.0, x.1)),
                        None => None,
                    },
                },
                ..old(self)@
            }),
    {
        if self.exit.is_none() {
            if let Some(x) = ended {
                self.exit = Some(crate::login::status_code(x.0, x.1));
            }
        }
        self.exit
    }

    /// The process has ended and both output pipes are drained.
    pub fn finished(&self) -> (r: bool)
        ensures
            r == self@.finished(),
    {
        self.exit.is_some() && !self.stdout_open && !self.stderr_open
    }

    /// The exit code (0 if not yet known).
    pub fn exit_code(&self) -> (r: i32)
        ensures
            r == match self@.exit {
                Some(c) => c,
                None => 0,
            },
    {
        match self.exit {
            Some(c) => c,
            None => 0,
        }
    }
}

// ---------------------------------------------------------------------------
// The server's side
// ---------------------------------------------------------------------------

/// The streams of a session after the output of a command was handed to them.
pub open spec fn output_sent(
    mux: MuxView,
    id: u64,
    errors: u64,
    out: Seq<u8>,
    err: Seq<u8>,
) -> MuxView {
    let one = if out.len() > 0 {
        mux.written(id, out)
    } else {
        mux
    };
    if err.len() > 0 {
        one.written(errors, err)
    } else {
        one
    }
}

/// The streams of a session after a command ended with a status.
pub open spec fn ended(mux: MuxView, id: u64, errors: u64, status: i32) -> MuxView {
    mux.closed(errors, 0).closed(id, status)
}

/// Hand the output of a command to its streams: standard output goes over the
/// stream that the client opened, standard error over the one opened for it.
pub fn server_send_output(
    core: &mut ServerCore,
    sid: &SessionId,
    id: u64,
    errors: u64,
    out: &[u8],
    err: &[u8],
)
    requires
        old(core).wf(),
    ensures
        final(core).wf(),
        final(core)@ == match old(core)@.session(sid@) {
            Some(s) => old(core)@.with_mux(sid@, output_sent(s.mux, id, errors, out@, err@)),
            None => old(core)@,
        },
{
    proof {
        crate::server::lemma_with_mux(core@, sid@);
    }
    let ghost before = core@;
    if out.len() > 0 {
        core.stream_write(sid, id, out);
    }
    proof {
        if let Some(s) = before.session(sid@) {
            let m = if out@.len() > 0 {
                s.mux.written(id, out@)
            } else {
                s.mux
            };
            assert(core@ == before.with_mux(sid@, m));
            assert(before.with_mux(sid@, m).with_mux(sid@, m.written(errors, err@))
                == before.with_mux(sid@, m.written(errors, err@)));
        }
    }
    if err.len() > 0 {
        core.stream_write(sid, errors, err);
    }
}

/// Move what the client typed to a command, unless too much waits for it. At the
/// end of the client's input its standard input is to be closed once all of it was
/// written: then true.
pub fn server_take_input(core: &mut ServerCore, sid: &SessionId, id: u64, proc: &mut ExecProc) -> (r:
    bool)
    requires
        old(core).wf(),
    ensures
        final(core).wf(),
        match old(core)@.session(sid@) {
            Some(s) => if old(proc)@.stdin_buf.len() < SEND_CAP {
                &&& final(core)@ == old(core)@.with_mux(sid@, s.mux.after_read(id))
                &&& final(proc)@ == if old(proc)@.stdin_open {
                    ExecView { stdin_buf: old(proc)@.stdin_buf + s.mux.readable(id), ..old(proc)@ }
                } else {
                    old(proc)@
                }
                &&& r == (s.mux.after_read(id).recv_finished(id) && final(proc)@.stdin_buf.len()
                    == 0)
            } else {
                final(core)@ == old(core)@ && final(proc)@ == old(proc)@ && !r
            },
            None => {
                &&& final(core)@ == old(core)@
                &&& final(proc)@ == old(proc)@
                &&& r == (old(proc)@.stdin_buf.len() == 0)
            },
        },
{
    proof {
        crate::server::lemma_with_mux(core@, sid@);
    }
    if (proc.stdin_buffered() as u64) < SEND_CAP {
        let data: Vec<u8> = core.stream_read(sid, id);
        proc.write_stdin(data.as_slice());
        assert(old(proc)@.stdin_buf + Seq::<u8>::empty() =~= old(proc)@.stdin_buf);
        proof {
            if let Some(s) = old(core)@.session(sid@) {
                assert(core@ == old(core)@.with_mux(sid@, s.mux.after_read(id)));
            }
        }
        core.stream_recv_finished(sid, id) && proc.stdin_buffered() == 0
    } else {
        false
    }
}

/// Close the streams of a command that ended, the client's with the exit status.
pub fn server_end(core: &mut ServerCore, sid: &SessionId, id: u64, errors: u64, status: i32)
    requires
        old(core).wf(),
    ensures
        final(core).wf(),
        final(core)@ == match old(core)@.session(sid@) {
            Some(s) => old(core)@.with_mux(sid@, ended(s.mux, id, errors, status)),
            None => old(core)@,
        },
{
    proof {
        crate::server::lemma_with_mux(core@, sid@);
    }
    let ghost before = core@;
    core.stream_close(sid, errors);
    proof {
        if let Some(s) = before.session(sid@) {
            let m = s.mux.closed(errors, 0);
            assert(core@ == before.with_mux(sid@, m));
            assert(before.with_mux(sid@, m).with_mux(sid@, m.closed(id, status)) == before.with_mux(
                sid@,
                m.closed(id, status),
            ));
        }
    }
    core.stream_end(sid, id, status);
}

// ---------------------------------------------------------------------------
// The client's side
// ---------------------------------------------------------------------------

/// What the client knows of a command.
pub struct ExecRunView {
    /// The stream that it runs on.
    pub id: u64,
    /// The stream of its standard error.
    pub errors: Option<u64>,
    pub exit_code: Option<i32>,
    /// The client's input ended.
    pub stdin_eof: bool,
}

impl ExecRunView {
    /// What is known after an event of a stream.
    pub open spec fn after_event(self, ev: EventView) -> ExecRunView {
        match ev {
            EventView::Opened { id, kind, meta } => if kind == StreamKind::Session {
                ExecRunView { errors: Some(id), ..self }
            } else {
                self
            },
            EventView::Closed { id, status } => if id == self.id {
                ExecRunView { exit_code: Some(status), ..self }
            } else {
                self
            },
            _ => self,
        }
    }

    /// What is known after the first `n` events of the streams.
    pub open spec fn after_events(self, events: Seq<EventView>, n: int) -> ExecRunView
        decreases n,
    {
        if n <= 0 {
            self
        } else {
            self.after_events(events, n - 1).after_event(events[n - 1])
        }
    }

    /// The command ended with this status, and all of its output was read.
    pub open spec fn result(self, mux: MuxView) -> Option<i32> {
        if mux.recv_finished(self.id) && match self.errors {
            Some(e) => mux.recv_finished(e),
            None => true,
        } {
            self.exit_code
        } else {
            None
        }
    }
}

/// A command, as the client sees it.
#[derive(Debug)]
pub struct ExecRun {
    id: u64,
    errors: Option<u64>,
    exit_code: Option<i32>,
    stdin_eof: bool,
}

impl View for ExecRun {
    type V = ExecRunView;

    closed spec fn view(&self) -> ExecRunView {
        ExecRunView {
            id: self.id,
            errors: self.errors,
            exit_code: self.exit_code,
            stdin_eof: self.stdin_eof,
        }
    }
}

impl ExecRun {
    /// Ask the server to run a command.
    pub fn start(core: &mut ClientCore, cmd: &str) -> (r: ExecRun)
        requires
            old(core).wf(),
        ensures
            final(core).wf(),
            r@ == (ExecRunView {
                id: old(core)@.mux.next_local_id,
                errors: None,
                exit_code: None,
                stdin_eof: false,
            }),
            final(core)@ == (ClientView {
                mux: old(core)@.mux.after_open(
                    StreamKind::Session,
                    vstd::utf8::encode_utf8(cmd@),
                ),
                ..old(core)@
            }),
    {
        let id: u64 = core.open_exec(cmd);
        ExecRun { id, errors: None, exit_code: None, stdin_eof: false }
    }

    fn event(&mut self, ev: &StreamEvent)
        ensures
            final(self)@ == old(self)@.after_event(ev@),
    {
        match ev {
            StreamEvent::Opened { id, kind, meta: _ } => {
                if *kind == StreamKind::Session {
                    self.errors = Some(*id);
                }
            },
            StreamEvent::Closed { id, status } => {
                if *id == self.id {
                    self.exit_code = Some(*status);
                }
            },
            _ => {},
        }
    }

    /// Take note of events of the streams. The server aborts the command's stream
    /// if it does not run it.
    pub fn events(&mut self, events: &Vec<StreamEvent>) -> (r: Result<(), RuntimeError>)
        ensures
            if crate::transfer::aborts(crate::stream::event_views(events@), old(self)@.id) {
                &&& r matches Err(e)
                &&& e@ == RuntimeErrorView::Exec("remote refused or could not start the command"@)
                &&& final(self)@ == old(self)@
            } else {
                &&& r is Ok
                &&& final(self)@ == old(self)@.after_events(
                    crate::stream::event_views(events@),
                    events@.len() as int,
                )
            },
    {
        if crate::transfer::any_reset(events, self.id) {
            return Err(
                RuntimeError::Exec("remote refused or could not start the command".to_owned()),
            );
        }
        let ghost views = crate::stream::event_views(events@);
        let ghost before = self@;
        let mut i: usize = 0;
        while i < events.len()
            invariant
                i <= events@.len(),
                views == crate::stream::event_views(events@),
                self@ == before.after_events(views, i as int),
            decreases events@.len() - i,
        {
            assert(views[i as int] == events@[i as int]@);
            self.event(&events[i]);
            i += 1;
        }
        Ok(())
    }

    /// What arrived of the command's standard output and standard error.
    pub fn output(&self, core: &mut ClientCore) -> (r: (Vec<u8>, Vec<u8>))
        requires
            old(core).wf(),
        ensures
            final(core).wf(),
            r.0@ == old(core)@.mux.readable(self@.id),
            match self@.errors {
                Some(e) => {
                    &&& r.1@ == old(core)@.mux.after_read(self@.id).readable(e)
                    &&& final(core)@ == (ClientView {
                        mux: old(core)@.mux.after_read(self@.id).after_read(e),
                        ..old(core)@
                    })
                },
                None => {
                    &&& r.1@.len() == 0
                    &&& final(core)@ == (ClientView {
                        mux: old(core)@.mux.after_read(self@.id),
                        ..old(core)@
                    })
                },
            },
    {
        let out: Vec<u8> = core.stream_read(self.id);
        let err: Vec<u8> = match self.errors {
            Some(e) => core.stream_read(e),
            None => Vec::new(),
        };
        (out, err)
    }

    /// The client's input is still to be read.
    pub fn wants_input(&self) -> (r: bool)
        ensures
            r == !self@.stdin_eof,
    {
        !self.stdin_eof
    }

    /// Hand what came of reading the client's input to the command. At its end, or
    /// if it fails, the command's input ends too.
    pub fn input(&mut self, core: &mut ClientCore, e: Io, data: &[u8])
        requires
            old(core).wf(),
            e matches Io::Moved(n) ==> n == data@.len(),
        ensures
            final(core).wf(),
            final(self)@ == (ExecRunView {
                stdin_eof: old(self)@.stdin_eof || at_end(e),
                ..old(self)@
            }),
            final(core)@ == match e {
                Io::Moved(n) => if n == 0 {
                    ClientView { mux: old(core)@.mux.closed(old(self)@.id, 0), ..old(core)@ }
                } else {
                    ClientView { mux: old(core)@.mux.written(old(self)@.id, data@), ..old(core)@ }
                },
                Io::Failed => ClientView {
                    mux: old(core)@.mux.closed(old(self)@.id, 0),
                    ..old(core)@
                },
                _ => old(core)@,
            },
    {
        match e {
            Io::Moved(n) => {
                if n == 0 {
                    self.stdin_eof = true;
                    core.stream_close(self.id);
                } else {
                    core.stream_write(self.id, data);
                }
            },
            Io::Failed => {
                self.stdin_eof = true;
                core.stream_close(self.id);
            },
            _ => {},
        }
    }

    /// The exit status, once the command ended and all of its output was read.
    pub fn result(&self, core: &ClientCore) -> (r: Option<i32>)
        requires
            core.wf(),
        ensures
            r == self@.result(core@.mux),
    {
        let out_done: bool = core.stream_recv_finished(self.id);
        let err_done: bool = match self.errors {
            Some(e) => core.stream_recv_finished(e),
            None => true,
        };
        if out_done && err_done {
            self.exit_code
        } else {
            None
        }
    }
}

// ---------------------------------------------------------------------------
// Laws
// ---------------------------------------------------------------------------

/// Standard output and standard error are kept apart: what a command writes to the one
/// goes over the stream it runs on, and what it writes to the other over the stream
/// opened for that, each byte for byte behind what was written before.
pub proof fn law_outputs_are_kept_apart(
    mux: MuxView,
    id: u64,
    errors: u64,
    out: Seq<u8>,
    err: Seq<u8>,
)
    requires
        id != errors,
        mux.streams.contains_key(id),
        mux.streams.contains_key(errors),
        mux.streams[id].send.next() + out.len() <= u64::MAX,
        mux.streams[errors].send.next() + err.len() <= u64::MAX,
    ensures
        ({
            let t = output_sent(mux, id, errors, out, err);
            &&& t.streams[id].send.buf == mux.streams[id].send.buf + out
            &&& t.streams[errors].send.buf == mux.streams[errors].send.buf + err
            &&& t.streams[id].fin == mux.streams[id].fin
            &&& t.streams[errors].fin == mux.streams[errors].fin
            &&& forall|k: u64|
                k != id && k != errors && mux.streams.contains_key(k)
                    ==> #[trigger] t.streams.contains_key(k) && t.streams[k] == mux.streams[k]
        }),
{
    assert(mux.streams[id].send.buf + Seq::<u8>::empty() =~= mux.streams[id].send.buf);
    assert(mux.streams[errors].send.buf + Seq::<u8>::empty() =~= mux.streams[errors].send.buf);
    if out.len() == 0 {
        assert(out =~= Seq::<u8>::empty());
    }
    if err.len() == 0 {
        assert(err =~= Seq::<u8>::empty());
    }
}

/// The status with which a command ended is what the client returns: the stream that the
/// command ran on is closed with it, and the client takes it from there and from no
/// other stream.
pub proof fn law_command_status_gets_through(
    mux: MuxView,
    run: ExecRunView,
    errors: u64,
    status: i32,
    other: u64,
)
    requires
        mux.streams.contains_key(run.id),
        errors != run.id,
        other != run.id,
    ensures
        ended(mux, run.id, errors, status).streams[run.id].fin.status == Some(status),
        ended(mux, run.id, errors, status).streams[run.id].fin.closed,
        mux.streams.contains_key(errors) ==> ended(mux, run.id, errors, status).streams[errors].fin.closed
            && ended(mux, run.id, errors, status).streams[errors].fin.status == Some(0i32),
        run.after_event(EventView::Closed { id: run.id, status }) == (ExecRunView {
            exit_code: Some(status),
            ..run
        }),
        run.after_event(EventView::Closed { id: other, status }) == run,
{
}

/// A command is not over for the client before it knows the status and has read all of
/// both outputs; then it is, with that status.
pub proof fn law_all_output_is_read(run: ExecRunView, mux: MuxView)
    ensures
        run.result(mux) is Some <==> run.exit_code is Some && mux.recv_finished(run.id) && (
        run.errors matches Some(e) ==> mux.recv_finished(e)),
        run.result(mux) is Some ==> run.result(mux) == run.exit_code,
{
}

/// The stream that the server opens for standard error is known as such; a stream of
/// another kind is not taken for it.
pub proof fn law_error_stream_is_known(run: ExecRunView, id: u64, kind: StreamKind, meta: Seq<u8>)
    ensures
        run.after_event(EventView::Opened { id, kind, meta }).errors == if kind
            == StreamKind::Session {
            Some(id)
        } else {
            run.errors
        },
        run.after_event(EventView::Opened { id, kind, meta }).exit_code == run.exit_code,
{
}

/// What waits for a command's standard input is taken from the front as it is written.
/// A command that no longer reads loses what waits, and nothing is kept for it after.
pub proof fn law_input_in_order(c: ExecView, n: usize)
    requires
        n <= c.stdin_buf.len(),
    ensures
        c.stdin_open ==> c.stdin_buf.take(n as int) + c.after_write(Io::Moved(n)).stdin_buf
            == c.stdin_buf,
        c.stdin_open ==> c.after_write(Io::WouldBlock) == c && c.after_write(Io::Interrupted) == c,
        c.after_write(Io::Failed).stdin_buf.len() == 0,
        !c.after_write(Io::Failed).stdin_open,
        c.after_write(Io::Moved(n)).stdin_open == c.stdin_open,
        c.after_write(Io::Moved(n)).exit == c.exit,
{
    assert(c.stdin_buf.take(n as int) + c.stdin_buf.skip(n as int) =~= c.stdin_buf);
}

/// A command is finished when it has ended and both of its outputs were read to their
/// end, and not before. A pipe is at its end when nothing more is read from it or it
/// fails, and not while it only has nothing now.
pub proof fn law_finished_when_drained(c: ExecView, n: usize)
    ensures
        c.finished() <==> c.exit is Some && !c.stdout_open && !c.stderr_open,
        at_end(Io::Moved(n)) <==> n == 0,
        at_end(Io::Failed),
        !at_end(Io::WouldBlock),
        !at_end(Io::Interrupted),
        !ExecView::fresh().finished(),
        ExecView::fresh().stdin_open,
{
}

} // verus!
