//! The requests that a client makes of its server. There is no acknowledgement
//! for them, so they are sent again for a bounded number of rounds.

use crate::control::{ControlMsg, ControlView};
use crate::wire::{Frame, FrameView};
use vstd::prelude::*;

verus! {

/// Bound on OpenShell retransmissions, so a shell that produces no screen output
/// does not cause the request to be resent for the whole session.
pub const OPEN_SHELL_MAX_TICKS: u32 = 300;

/// Bound on RemoteForward retransmissions (best-effort reliability over UDP).
pub const REMOTE_FORWARD_MAX_TICKS: u32 = 300;

/// What is requested.
pub struct RequestsView {
    pub rows: u16,
    pub cols: u16,
    pub term: Seq<char>,
    /// A shell is wanted on connect.
    pub want_shell: bool,
    /// The agent is to be forwarded.
    pub want_agent: bool,
    /// A shell is being requested.
    pub open_shell: bool,
    /// How often it was requested.
    pub open_shell_ticks: u32,
    /// Remote ports to be forwarded, each with its target.
    pub forwards: Seq<(u16, Seq<char>)>,
    /// How often they were requested since the last was added.
    pub forward_ticks: u32,
    /// Messages to be sent once.
    pub pending: Seq<FrameView>,
}

/// The frame of a control message.
pub open spec fn control_frame(m: ControlView) -> FrameView {
    FrameView::Control { data: crate::control::control_bytes(m) }
}

impl RequestsView {
    /// No more requests for a shell are made than the bound allows.
    pub open spec fn wf(self) -> bool {
        self.open_shell ==> self.open_shell_ticks < OPEN_SHELL_MAX_TICKS
    }

    /// The request for a shell, if one is made.
    pub open spec fn open_shell_frames(self) -> Seq<FrameView> {
        if self.open_shell {
            seq![
                control_frame(
                    ControlView::OpenShell {
                        cols: self.cols,
                        rows: self.rows,
                        term: self.term,
                        agent: self.want_agent,
                    },
                ),
            ]
        } else {
            Seq::empty()
        }
    }

    /// Remote forwards are being requested.
    pub open spec fn forwarding(self) -> bool {
        self.forwards.len() > 0 && self.forward_ticks < REMOTE_FORWARD_MAX_TICKS
    }

    /// The requests for remote forwards, if they are made.
    pub open spec fn forward_frames(self) -> Seq<FrameView> {
        if self.forwarding() {
            Seq::new(
                self.forwards.len(),
                |i: int|
                    control_frame(
                        ControlView::RemoteForward {
                            bind_port: self.forwards[i].0,
                            target: self.forwards[i].1,
                        },
                    ),
            )
        } else {
            Seq::empty()
        }
    }

    /// All that is sent in a round.
    pub open spec fn frames(self) -> Seq<FrameView> {
        self.open_shell_frames() + self.forward_frames() + self.pending
    }

    /// After a round.
    pub open spec fn after(self) -> RequestsView {
        RequestsView {
            open_shell: self.open_shell && self.open_shell_ticks + 1 < OPEN_SHELL_MAX_TICKS,
            open_shell_ticks: if self.open_shell {
                (self.open_shell_ticks + 1) as u32
            } else {
                self.open_shell_ticks
            },
            forward_ticks: if self.forwarding() {
                (self.forward_ticks + 1) as u32
            } else {
                self.forward_ticks
            },
            pending: Seq::empty(),
            ..self
        }
    }

    /// There is something to request.
    pub open spec fn any(self) -> bool {
        self.open_shell || self.pending.len() > 0 || self.forwarding()
    }
}

/// Requests that are being made.
pub struct Requests {
    rows: u16,
    cols: u16,
    term: String,
    want_shell: bool,
    want_agent: bool,
    open_shell: bool,
    open_shell_ticks: u32,
    forwards: Vec<(u16, String)>,
    forward_ticks: u32,
    pending: Vec<Frame>,
}

spec fn forward_views(v: Seq<(u16, String)>) -> Seq<(u16, Seq<char>)> {
    Seq::new(v.len(), |i: int| (v[i].0, v[i].1@))
}

impl View for Requests {
    type V = RequestsView;

    closed spec fn view(&self) -> RequestsView {
        RequestsView {
            rows: self.rows,
            cols: self.cols,
            term: self.term@,
            want_shell: self.want_shell,
            want_agent: self.want_agent,
            open_shell: self.open_shell,
            open_shell_ticks: self.open_shell_ticks,
            forwards: forward_views(self.forwards@),
            forward_ticks: self.forward_ticks,
            pending: crate::wire::frame_views(self.pending@),
        }
    }
}

impl Requests {
    /// The bound on requests for a shell is kept.
    pub open spec fn wf(&self) -> bool {
        self@.wf()
    }

    /// No requests yet, from a terminal of this size and type. A shell is
    /// wanted.
    pub fn new(rows: u16, cols: u16, term: String) -> (r: Requests)
        ensures
            r.wf(),
            r@ == (RequestsView {
                rows,
                cols,
                term: term@,
                want_shell: true,
                want_agent: false,
                open_shell: false,
                open_shell_ticks: 0,
                forwards: Seq::empty(),
                forward_ticks: 0,
                pending: Seq::empty(),
            }),
    {
        let r = Requests {
            rows,
            cols,
            term,
            want_shell: true,
            want_agent: false,
            open_shell: false,
            open_shell_ticks: 0,
            forwards: Vec::new(),
            forward_ticks: 0,
            pending: Vec::new(),
        };
        assert(r@.forwards =~= Seq::<(u16, Seq<char>)>::empty());
        assert(r@.pending =~= Seq::<FrameView>::empty());
        r
    }

    /// Whether a shell is wanted on connect.
    pub fn set_want_shell(&mut self, want: bool)
        requires
            old(self).wf(),
        ensures
            final(self).wf(),
            final(self)@ == (RequestsView { want_shell: want, ..old(self)@ }),
    {
        self.want_shell = want;
    }

    /// Whether the agent is to be forwarded.
    pub fn set_want_agent(&mut self, want: bool)
        requires
            old(self).wf(),
        ensures
            final(self).wf(),
            final(self)@ == (RequestsView { want_agent: want, ..old(self)@ }),
    {
        self.want_agent = want;
    }

    /// Begin to request a shell, if one is wanted, as long as the bound allows.
    pub fn connected(&mut self)
        requires
            old(self).wf(),
        ensures
            final(self).wf(),
            final(self)@ == (RequestsView {
                open_shell: old(self)@.want_shell && old(self)@.open_shell_ticks
                    < OPEN_SHELL_MAX_TICKS,
                ..old(self)@
            }),
    {
        self.open_shell = self.want_shell && self.open_shell_ticks < OPEN_SHELL_MAX_TICKS;
    }

    /// The shell is open: stop requesting it.
    pub fn opened(&mut self)
        ensures
            final(self).wf(),
            final(self)@ == (RequestsView { open_shell: false, ..old(self)@ }),
    {
        self.open_shell = false;
    }

    /// The terminal has another size, and the server is to be told.
    pub fn resize(&mut self, cols: u16, rows: u16)
        requires
            old(self).wf(),
        ensures
            final(self).wf(),
            final(self)@ == (RequestsView {
                rows,
                cols,
                pending: old(self)@.pending.push(control_frame(ControlView::Resize { cols, rows })),
                ..old(self)@
            }),
    {
        self.rows = rows;
        self.cols = cols;
        let ghost before = self.pending@;
        let m = ControlMsg::Resize { cols, rows };
        self.pending.push(Frame::Control { data: m.encode() });
        assert(crate::wire::frame_views(self.pending@) =~= crate::wire::frame_views(before).push(
            control_frame(ControlView::Resize { cols, rows }),
        ));
    }

    /// The server is to be told that the client is done.
    pub fn bye(&mut self)
        requires
            old(self).wf(),
        ensures
            final(self).wf(),
            final(self)@ == (RequestsView {
                pending: old(self)@.pending.push(control_frame(ControlView::Bye)),
                ..old(self)@
            }),
    {
        let ghost before = self.pending@;
        let m = ControlMsg::Bye;
        self.pending.push(Frame::Control { data: m.encode() });
        assert(crate::wire::frame_views(self.pending@) =~= crate::wire::frame_views(before).push(
            control_frame(ControlView::Bye),
        ));
    }

    /// Request that a remote port be forwarded to `target`; all such requests
    /// are made anew.
    pub fn forward(&mut self, bind_port: u16, target: &str)
        requires
            old(self).wf(),
        ensures
            final(self).wf(),
            final(self)@ == (RequestsView {
                forwards: old(self)@.forwards.push((bind_port, target@)),
                forward_ticks: 0,
                ..old(self)@
            }),
    {
        let ghost before = self.forwards@;
        self.forwards.push((bind_port, target.to_owned()));
        self.forward_ticks = 0;
        assert(forward_views(self.forwards@) =~= forward_views(before).push((bind_port, target@)));
    }

    /// Whether there is something to request.
    pub fn any(&self) -> (r: bool)
        ensures
            r == self@.any(),
    {
        self.open_shell || self.pending.len() > 0 || (self.forwards.len() > 0
            && self.forward_ticks < REMOTE_FORWARD_MAX_TICKS)
    }

    /// The frames of a round.
    pub fn poll_frames(&mut self) -> (out: Vec<Frame>)
        requires
            old(self).wf(),
        ensures
            final(self).wf(),
            final(self)@ == old(self)@.after(),
            crate::wire::frame_views(out@) == old(self)@.frames(),
    {
        let ghost v = self@;
        let mut out: Vec<Frame> = Vec::new();
        if self.open_shell {
            let m = ControlMsg::OpenShell {
                cols: self.cols,
                rows: self.rows,
                term: self.term.as_str().to_owned(),
                agent: self.want_agent,
            };
            out.push(Frame::Control { data: m.encode() });
            self.open_shell_ticks = self.open_shell_ticks + 1;
            if self.open_shell_ticks >= OPEN_SHELL_MAX_TICKS {
                self.open_shell = false;
            }
        }
        assert(crate::wire::frame_views(out@) =~= v.open_shell_frames());
        if self.forwards.len() > 0 && self.forward_ticks < REMOTE_FORWARD_MAX_TICKS {
            let ghost first = out@;
            let mut i: usize = 0;
            while i < self.forwards.len()
                invariant
                    i <= self.forwards@.len(),
                    v.forwarding(),
                    v.forwards == forward_views(self.forwards@),
                    out@.len() == first.len() + i,
                    forall|j: int| 0 <= j < first.len() ==> out@[j] == first[j],
                    forall|j: int|
                        0 <= j < i ==> (#[trigger] out@[first.len() + j])@ == v.forward_frames()[j],
                decreases self.forwards@.len() - i,
            {
                let m = ControlMsg::RemoteForward {
                    bind_port: self.forwards[i].0,
                    target: self.forwards[i].1.as_str().to_owned(),
                };
                out.push(Frame::Control { data: m.encode() });
                i += 1;
            }
            self.forward_ticks = self.forward_ticks + 1;
            assert forall|k: int| first.len() <= k < out@.len() implies (#[trigger] out@[k])@
                == v.forward_frames()[k - first.len()] by {
                let j = k - first.len();
                assert(out@[first.len() + j]@ == v.forward_frames()[j]);
            }
            assert(crate::wire::frame_views(out@) =~= crate::wire::frame_views(first)
                + v.forward_frames());
        }
        assert(crate::wire::frame_views(out@) =~= v.open_shell_frames() + v.forward_frames());
        out.append(&mut self.pending);
        assert(crate::wire::frame_views(out@) =~= v.frames());
        assert(crate::wire::frame_views(self.pending@) =~= Seq::<FrameView>::empty());
        out
    }
}

// ---------------------------------------------------------------------------
// Laws
// ---------------------------------------------------------------------------

/// The requests after so many rounds.
pub open spec fn after_rounds(v: RequestsView, n: nat) -> RequestsView
    decreases n,
{
    if n == 0 {
        v
    } else {
        after_rounds(v, (n - 1) as nat).after()
    }
}

/// Requests end by themselves: after as many rounds as the bounds allow nothing
/// is requested any more.
pub proof fn law_requests_end(v: RequestsView, n: nat)
    requires
        v.wf(),
        n >= OPEN_SHELL_MAX_TICKS,
        n >= REMOTE_FORWARD_MAX_TICKS,
    ensures
        !after_rounds(v, n).any(),
        after_rounds(v, n).frames() == Seq::<FrameView>::empty(),
{
    lemma_rounds(v, n);
    let w = after_rounds(v, n);
    assert(w.frames() =~= Seq::<FrameView>::empty());
}

proof fn lemma_rounds(v: RequestsView, n: nat)
    requires
        v.wf(),
    ensures
        ({
            let w = after_rounds(v, n);
            &&& w.wf()
            &&& w.forwards == v.forwards
            &&& w.open_shell ==> w.open_shell_ticks >= n
            &&& w.forwarding() ==> w.forward_ticks >= n
            &&& n > 0 ==> w.pending.len() == 0
        }),
    decreases n,
{
    if n > 0 {
        lemma_rounds(v, (n - 1) as nat);
    }
}

/// A shell is requested at most as often as the bound says.
pub proof fn law_shell_requests_bounded(v: RequestsView, n: nat)
    requires
        v.wf(),
        v.open_shell_ticks <= OPEN_SHELL_MAX_TICKS,
    ensures
        after_rounds(v, n).open_shell_ticks <= OPEN_SHELL_MAX_TICKS,
    decreases n,
{
    if n > 0 {
        law_shell_requests_bounded(v, (n - 1) as nat);
        lemma_rounds(v, (n - 1) as nat);
    }
}

/// A message is sent in the next round and in no later one. A shell and remote forwards
/// are requested in every round, as they were asked for, until that ends; other rounds
/// change nothing of what is asked for.
pub proof fn law_rounds_send(v: RequestsView, k: int)
    ensures
        ({
            let n = v.open_shell_frames().len() + v.forward_frames().len();
            &&& 0 <= k < v.pending.len() ==> v.frames()[n + k] == v.pending[k]
            &&& v.frames().len() == n + v.pending.len()
            &&& v.after().pending.len() == 0
            &&& v.open_shell ==> v.frames()[0] == control_frame(
                ControlView::OpenShell {
                    cols: v.cols,
                    rows: v.rows,
                    term: v.term,
                    agent: v.want_agent,
                },
            )
            &&& v.open_shell_frames().len() == if v.open_shell {
                1nat
            } else {
                0
            }
            &&& 0 <= k < v.forwards.len() && v.forward_ticks < 300 ==> v.frames()[
                v.open_shell_frames().len() + k
            ] == control_frame(
                ControlView::RemoteForward {
                    bind_port: v.forwards[k].0,
                    target: v.forwards[k].1,
                },
            )
            &&& v.forward_ticks >= 300 ==> v.forward_frames().len() == 0
            &&& v.after().forwards == v.forwards
            &&& v.after().rows == v.rows
            &&& v.after().cols == v.cols
            &&& v.after().term == v.term
            &&& v.after().want_agent == v.want_agent
        }),
{
}

} // verus!
