//! Copying files over a session: what each side sends next, and when a copy is
//! complete. The files themselves are the caller's.

use crate::client::{ClientCore, ClientView};
use crate::error::{RuntimeError, RuntimeErrorView};
use crate::forward::SEND_CAP;
use crate::server::{ServerCore, ServerView};
use crate::stream::{EventView, MuxView, StreamEvent};
use crate::text::push_decimal;
use crate::transport::SessionId;
use crate::xfer::{progress_line, XferRequest, XferView};
use vstd::prelude::*;

verus! {

/// How much of a file is read at a time.
pub const CHUNK: usize = 65536;

// ---------------------------------------------------------------------------
// Progress
// ---------------------------------------------------------------------------

/// How often the progress line is drawn at most, in milliseconds.
pub const DRAW_EVERY_MS: u64 = 100;

/// The progress line of a copy.
pub open spec fn drawn(label: Seq<char>, done: u64, total: Option<u64>) -> Seq<char> {
    "\r"@ + label + "  "@ + crate::xfer::progress(done, total) + "        "@
}

/// Enough time has passed since the line was drawn.
pub open spec fn due(last: Option<u64>, now: u64) -> bool {
    match last {
        Some(t) => now - t >= DRAW_EVERY_MS,
        None => true,
    }
}

/// A throttled progress reporter: a single carriage-return-updated line, and
/// nothing when there is no terminal, so scripts and pipelines stay clean.
#[derive(Debug)]
pub struct Progress {
    pub total: Option<u64>,
    pub done: u64,
    /// When the line was last drawn, in milliseconds.
    pub last_draw: Option<u64>,
    pub enabled: bool,
    pub label: String,
}

impl Progress {
    /// A reporter for an operation moving `total` bytes (or `None` if unknown).
    /// `label` is a short prefix.
    pub fn new(label: String, total: Option<u64>, enabled: bool) -> (r: Progress)
        ensures
            r.total == total,
            r.done == 0,
            r.last_draw is None,
            r.enabled == enabled,
            r.label@ == label@,
    {
        Progress { total, done: 0, last_draw: None, enabled, label }
    }

    /// The progress line.
    fn draw(&self) -> (r: String)
        ensures
            r@ == drawn(self.label@, self.done, self.total),
    {
        let mut r: String = "\r".to_owned();
        r.push_str(self.label.as_str());
        r.push_str("  ");
        r.push_str(progress_line(self.done, self.total).as_str());
        r.push_str("        ");
        r
    }

    /// Record `n` more bytes transferred, at the time `now` in milliseconds. The
    /// line to draw, if enough time has passed.
    pub fn add(&mut self, n: u64, now: u64) -> (r: Option<String>)
        requires
            old(self).done + n <= u64::MAX,
            old(self).last_draw matches Some(t) ==> t <= now,
        ensures
            final(self).done == old(self).done + n,
            final(self).total == old(self).total,
            final(self).enabled == old(self).enabled,
            final(self).label == old(self).label,
            if old(self).enabled && due(old(self).last_draw, now) {
                &&& final(self).last_draw == Some(now)
                &&& r matches Some(s) && s@ == drawn(
                    old(self).label@,
                    (old(self).done + n) as u64,
                    old(self).total,
                )
            } else {
                &&& final(self).last_draw == old(self).last_draw
                &&& r is None
            },
    {
        self.done = self.done + n;
        let late: bool = match self.last_draw {
            Some(t) => now - t >= DRAW_EVERY_MS,
            None => true,
        };
        if self.enabled && late {
            self.last_draw = Some(now);
            Some(self.draw())
        } else {
            None
        }
    }

    /// The last line, if the reporter was active.
    pub fn finish(&self) -> (r: Option<String>)
        ensures
            if self.enabled {
                r matches Some(s) && s@ == drawn(self.label@, self.done, self.total) + "\n"@
            } else {
                r is None
            },
    {
        if self.enabled {
            let mut s: String = self.draw();
            s.push_str("\n");
            Some(s)
        } else {
            None
        }
    }
}

/// What a copy is called while it goes on, and how many bytes it moves: an upload
/// goes by the local file and has a known size.
pub fn progress_of(req: &XferRequest, local: &str) -> (r: (String, Option<u64>))
    ensures
        match req@ {
            XferView::Put { path, size } => r.0@ == "↑ "@ + local@ && r.1 == Some(size),
            XferView::Get { path } => r.0@ == "↓ "@ + path && r.1 is None,
        },
{
    match req {
        XferRequest::Put { path: _, size } => {
            let mut label: String = "↑ ".to_owned();
            label.push_str(local);
            (label, Some(*size))
        },
        XferRequest::Get { path } => {
            let mut label: String = "↓ ".to_owned();
            label.push_str(path.as_str());
            (label, None)
        },
    }
}

/// The name of the file that a copy is written to until it is complete: next to
/// the destination, so that it can take the destination's place at once.
pub fn temp_name(name: Option<&str>, process: u32) -> (r: String)
    ensures
        r@ == match name {
            Some(n) => n@,
            None => ".noissh"@,
        } + ".noissh-tmp-"@ + crate::text::decimal(process as nat),
{
    let mut r: String = match name {
        Some(n) => n.to_owned(),
        None => ".noissh".to_owned(),
    };
    r.push_str(".noissh-tmp-");
    push_decimal(&mut r, process as u64);
    r
}

// ---------------------------------------------------------------------------
// The client's side
// ---------------------------------------------------------------------------

/// The state of a copy.
pub struct TransferView {
    /// The stream that it goes over.
    pub id: u64,
    /// It is an upload.
    pub put: bool,
    /// All of the file was sent.
    pub sent_fin: bool,
}

/// A file copy, as the client sees it.
#[derive(Debug)]
pub struct Transfer {
    id: u64,
    put: bool,
    sent_fin: bool,
}

impl View for Transfer {
    type V = TransferView;

    closed spec fn view(&self) -> TransferView {
        TransferView { id: self.id, put: self.put, sent_fin: self.sent_fin }
    }
}

/// An event aborts this stream.
pub open spec fn aborts(events: Seq<EventView>, id: u64) -> bool {
    exists|i: int| 0 <= i < events.len() && #[trigger] events[i] == (EventView::Reset { id })
}

pub(crate) fn any_reset(events: &Vec<StreamEvent>, id: u64) -> (r: bool)
    ensures
        r == aborts(crate::stream::event_views(events@), id),
{
    let ghost views = crate::stream::event_views(events@);
    let mut i: usize = 0;
    while i < events.len()
        invariant
            i <= events@.len(),
            views == crate::stream::event_views(events@),
            forall|j: int| 0 <= j < i ==> #[trigger] views[j] != (EventView::Reset { id }),
        decreases events@.len() - i,
    {
        assert(views[i as int] == events@[i as int]@);
        match &events[i] {
            StreamEvent::Reset { id: other } => {
                if *other == id {
                    return true;
                }
            },
            _ => {},
        }
        i += 1;
    }
    false
}

impl TransferView {
    /// The next part of the file is to be sent.
    pub open spec fn wants_chunk(self, mux: MuxView) -> bool {
        self.put && !self.sent_fin && mux.in_flight(self.id) < SEND_CAP
    }

    /// The copy is complete: the peer closed its side, and all was sent.
    pub open spec fn complete(self, mux: MuxView) -> bool {
        (self.put ==> self.sent_fin) && mux.recv_finished(self.id)
    }
}

/// The text of the error when the other side aborts a copy.
pub open spec fn rejection() -> Seq<char> {
    "remote rejected the transfer (no such file or permission denied)"@
}

impl Transfer {
    /// Ask the server for a copy.
    pub fn start(core: &mut ClientCore, req: &XferRequest) -> (r: Transfer)
        requires
            old(core).wf(),
        ensures
            final(core).wf(),
            r@ == (TransferView {
                id: old(core)@.mux.next_local_id,
                put: req@ is Put,
                sent_fin: false,
            }),
            final(core)@ == (ClientView {
                mux: old(core)@.mux.after_open(
                    crate::wire::StreamKind::FileTransfer,
                    vstd::utf8::encode_utf8(crate::xfer::request_text(req@)),
                ),
                ..old(core)@
            }),
    {
        let put: bool = match req {
            XferRequest::Put { path: _, size: _ } => true,
            XferRequest::Get { path: _ } => false,
        };
        let id: u64 = core.open_xfer(req);
        Transfer { id, put, sent_fin: false }
    }

    /// Look at the events of the streams: the server aborts the copy's stream if
    /// it cannot read or write its file.
    pub fn check(&self, events: &Vec<StreamEvent>) -> (r: Result<(), RuntimeError>)
        ensures
            if aborts(crate::stream::event_views(events@), self@.id) {
                r matches Err(e) && e@ == RuntimeErrorView::Transfer(rejection())
            } else {
                r is Ok
            },
    {
        if any_reset(events, self.id) {
            Err(
                RuntimeError::Transfer(
                    "remote rejected the transfer (no such file or permission denied)".to_owned(),
                ),
            )
        } else {
            Ok(())
        }
    }

    /// The next part of the file is to be read and handed to `send`.
    pub fn wants_chunk(&self, core: &ClientCore) -> (r: bool)
        requires
            core.wf(),
        ensures
            r == self@.wants_chunk(core@.mux),
    {
        self.put && !self.sent_fin && core.stream_in_flight(self.id) < SEND_CAP
    }

    /// Send the next part of the file; an empty one is its end.
    pub fn send(&mut self, core: &mut ClientCore, chunk: &[u8])
        requires
            old(core).wf(),
        ensures
            final(core).wf(),
            if chunk@.len() == 0 {
                &&& final(self)@ == (TransferView { sent_fin: true, ..old(self)@ })
                &&& final(core)@ == (ClientView {
                    mux: old(core)@.mux.closed(old(self)@.id, 0),
                    ..old(core)@
                })
            } else {
                &&& final(self)@ == old(self)@
                &&& final(core)@ == (ClientView {
                    mux: old(core)@.mux.written(old(self)@.id, chunk@),
                    ..old(core)@
                })
            },
    {
        if chunk.len() == 0 {
            core.stream_close(self.id);
            self.sent_fin = true;
        } else {
            core.stream_write(self.id, chunk);
        }
    }

    /// The bytes of the file that arrived.
    pub fn receive(&self, core: &mut ClientCore) -> (out: Vec<u8>)
        requires
            old(core).wf(),
        ensures
            final(core).wf(),
            if self@.put {
                out@.len() == 0 && final(core)@ == old(core)@
            } else {
                &&& out@ == old(core)@.mux.readable(self@.id)
                &&& final(core)@ == (ClientView {
                    mux: old(core)@.mux.after_read(self@.id),
                    ..old(core)@
                })
            },
    {
        if self.put {
            Vec::new()
        } else {
            core.stream_read(self.id)
        }
    }

    /// True if the copy is complete; a download's stream is then closed.
    pub fn settle(&self, core: &mut ClientCore) -> (r: bool)
        requires
            old(core).wf(),
        ensures
            final(core).wf(),
            r == self@.complete(old(core)@.mux),
            final(core)@ == if r && !self@.put {
                ClientView { mux: old(core)@.mux.closed(self@.id, 0), ..old(core)@ }
            } else {
                old(core)@
            },
    {
        if self.put {
            self.sent_fin && core.stream_recv_finished(self.id)
        } else if core.stream_recv_finished(self.id) {
            core.stream_close(self.id);
            true
        } else {
            false
        }
    }
}

// ---------------------------------------------------------------------------
// The server's side
// ---------------------------------------------------------------------------

/// The server after a stream of a session was closed.
pub open spec fn with_closed(v: ServerView, sid: Seq<u8>, id: u64) -> ServerView {
    match v.session(sid) {
        Some(s) => v.with_mux(sid, s.mux.closed(id, 0)),
        None => v,
    }
}

/// What is to become of an upload.
#[derive(Debug, Clone, Copy, PartialEq, Eq, Structural)]
pub enum Upload {
    /// More bytes are awaited.
    Waiting,
    /// It is complete: the file is put in place.
    Keep,
    /// It failed or was interrupted: what was written is thrown away, and what stood
    /// in its place stays.
    Discard,
}

/// What is to become of an upload of which bytes could not be written if `failed`.
pub open spec fn upload_of(v: ServerView, sid: Seq<u8>, id: u64, failed: bool) -> Upload {
    match v.session(sid) {
        None => Upload::Discard,
        Some(s) => if failed {
            Upload::Discard
        } else if s.mux.recv_finished(id) {
            Upload::Keep
        } else {
            Upload::Waiting
        },
    }
}

/// What is to become of an upload: it is put in place once the client has closed its
/// side and every byte was read, and thrown away if a byte could not be written or
/// the session is gone.
pub fn upload_next(core: &ServerCore, sid: &SessionId, id: u64, failed: bool) -> (r: Upload)
    requires
        core.wf(),
    ensures
        r == upload_of(core@, sid@, id, failed),
{
    if failed || !core.has_session(sid) {
        Upload::Discard
    } else if core.stream_recv_finished(sid, id) {
        Upload::Keep
    } else {
        Upload::Waiting
    }
}

/// An upload that is put in place is complete: every byte that the client wrote to
/// its stream was read, no more and no less.
pub proof fn law_kept_upload_is_complete(
    v: ServerView,
    sid: Seq<u8>,
    id: u64,
    failed: bool,
    written: Seq<u8>,
)
    requires
        upload_of(v, sid, id, failed) is Keep,
        v.session(sid) matches Some(s) && s.mux.streams.contains_key(id)
            && crate::stream_laws::receives(s.mux.streams[id], written),
    ensures
        v.session(sid).unwrap().mux.streams[id].recv.delivered == written.len(),
{
    crate::stream_laws::law_finished_is_complete(
        v.session(sid).unwrap().mux.streams[id],
        written,
    );
}

/// An upload is over: it failed, or the client closed its side and every byte was
/// read. Its stream is then closed.
pub fn store_settle(core: &mut ServerCore, sid: &SessionId, id: u64, failed: bool) -> (r: bool)
    requires
        old(core).wf(),
    ensures
        final(core).wf(),
        r == (failed || match old(core)@.session(sid@) {
            Some(s) => s.mux.recv_finished(id),
            None => true,
        }),
        final(core)@ == if r {
            with_closed(old(core)@, sid@, id)
        } else {
            old(core)@
        },
{
    if failed || core.stream_recv_finished(sid, id) {
        core.stream_close(sid, id);
        true
    } else {
        false
    }
}

/// Send the next part of a download. `None` or an empty part is its end: its
/// stream is then closed, and the download is over.
pub fn load_send(core: &mut ServerCore, sid: &SessionId, id: u64, chunk: Option<Vec<u8>>) -> (r:
    bool)
    requires
        old(core).wf(),
    ensures
        final(core).wf(),
        r == match chunk {
            Some(c) => c@.len() == 0,
            None => true,
        },
        final(core)@ == if r {
            with_closed(old(core)@, sid@, id)
        } else {
            match old(core)@.session(sid@) {
                Some(s) => old(core)@.with_mux(sid@, s.mux.written(id, chunk.unwrap()@)),
                None => old(core)@,
            }
        },
{
    if let Some(c) = chunk {
        if c.len() > 0 {
            core.stream_write(sid, id, c.as_slice());
            return false;
        }
    }
    core.stream_close(sid, id);
    true
}

/// An upload is put in place only while its session lasts and nothing failed, and then
/// as soon as the client has closed its side and all of it was read; until then it
/// waits. Whatever else happens to it, it is thrown away.
pub proof fn law_upload_is_settled_once(v: ServerView, sid: Seq<u8>, id: u64, failed: bool)
    ensures
        upload_of(v, sid, id, failed) is Keep <==> !failed && (v.session(sid) matches Some(s)
            && s.mux.recv_finished(id)),
        upload_of(v, sid, id, failed) is Waiting <==> !failed && (v.session(sid) matches Some(s)
            && !s.mux.recv_finished(id)),
        upload_of(v, sid, id, failed) is Discard <==> failed || v.session(sid) is None,
{
}

/// More of a file is read only while not too much of it is on its way, and only for an
/// upload that is not all sent. A copy is complete when the peer has closed its side and
/// all of it was read, and for an upload all of it was sent as well.
pub proof fn law_copy_is_paced(t: TransferView, mux: MuxView)
    requires
        mux.streams.contains_key(t.id),
    ensures
        t.wants_chunk(mux) ==> t.put && !t.sent_fin && mux.streams[t.id].send.buf.len() < SEND_CAP,
        t.put && !t.sent_fin && mux.streams[t.id].send.buf.len() < SEND_CAP ==> t.wants_chunk(mux),
        t.complete(mux) <==> mux.streams[t.id].recv_finished() && (t.put ==> t.sent_fin),
        t.wants_chunk(mux) ==> !t.complete(mux),
{
}

/// Closing a stream of one session leaves every other stream and every other session.
pub proof fn law_close_is_confined(v: ServerView, sid: Seq<u8>, id: u64, k: u64)
    requires
        v.session(sid) is Some,
    ensures
        ({
            let before = v.session(sid)->0;
            let m = before.mux.closed(id, 0);
            &&& with_closed(v, sid, id) == v.with_mux(sid, m)
            &&& before.mux.streams.contains_key(id) ==> m.streams[id].fin.closed
            &&& k != id && before.mux.streams.contains_key(k) ==> m.streams[k]
                == before.mux.streams[k]
        }),
{
}

/// The progress line is drawn at most once in a tenth of a second.
pub proof fn law_progress_is_throttled(last: u64, now: u64)
    requires
        last <= now,
    ensures
        due(None, now),
        due(Some(last), now) <==> now - last >= 100,
{
}

} // verus!
