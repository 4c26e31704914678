//! What the two ends of a session make of each other's frames.

use crate::client::ClientView;
use crate::control::ControlView;
use crate::requests::RequestsView;
use crate::server_session::{PtyActionView, ServerSessionView};
use crate::shell::{ClientShellView, ServerShellView};
use crate::wire::FrameView;
use vstd::prelude::*;

verus! {

/// A size as a screen has it: at least one.
pub open spec fn extent(n: u16) -> int {
    if n == 0 {
        1
    } else {
        n as int
    }
}

/// A resize reaches both the pty and the screen: the pty is told the size that the frame
/// carries, and the shell's screen has that many rows and columns, at least one of each.
/// Every cell whose place lies on the old and on the new screen is as it was; new cells
/// are blank. The cursor stays where it was as far as that is on the screen.
pub proof fn law_resize_reaches_screen(
    s: ServerSessionView,
    cols: u16,
    rows: u16,
    r: int,
    c: int,
)
    requires
        s.shell matches Some(sh) && sh.screen.wf(),
        0 <= r < extent(rows),
        0 <= c < extent(cols),
    ensures
        ({
            let f = crate::requests::control_frame(ControlView::Resize { cols, rows });
            let old = s.shell->0.screen;
            let t = s.after_frame(f);
            let new = t.shell->0.screen;
            &&& t.shell is Some
            &&& new.rows == extent(rows)
            &&& new.cols == extent(cols)
            &&& new.cells.len() == new.rows * new.cols
            &&& r < old.rows && c < old.cols ==> new.at(r, c) == old.at(r, c)
            &&& r >= old.rows || c >= old.cols ==> new.at(r, c) == crate::cell::blank_cell()
            &&& old.cursor_row < new.rows ==> new.cursor_row == old.cursor_row
            &&& old.cursor_col < new.cols ==> new.cursor_col == old.cursor_col
            &&& new.pen == old.pen
            &&& t.rows == rows
            &&& t.cols == cols
            &&& t.pty == s.pty
            &&& s.pty ==> s.frame_action(f) == (PtyActionView::Resize { cols, rows })
        }),
{
    crate::control::law_control_roundtrip(ControlView::Resize { cols, rows });
    crate::grid::law_resize_keeps_overlap(s.shell->0.screen, extent(rows), extent(cols), r, c);
    assert(extent(rows) * extent(cols) >= 0) by (nonlinear_arith)
        requires
            extent(rows) >= 1,
            extent(cols) >= 1,
    ;
}

/// After a resize the client is brought to a screen of the new size: the frame that the
/// server has for it, once applied, leaves the client with as many rows and columns.
pub proof fn law_resize_reaches_client(
    s: ServerSessionView,
    client: ClientShellView,
    cols: u16,
    rows: u16,
)
    requires
        s.shell matches Some(sh) && sh.wf() && sh.seq < u64::MAX && crate::shell::in_sync(
            sh,
            client,
        ) && (sh.force_full || client.current_seq == sh.acked_seq),
        client.wf(),
    ensures
        ({
            let f = crate::requests::control_frame(ControlView::Resize { cols, rows });
            let sh = s.after_frame(f).shell->0;
            sh.recorded().diff_frame() matches Some(FrameView::StateDiff { seq, base, data }) ==> {
                &&& client.after_diff(seq, base, data).grid.rows == extent(rows)
                &&& client.after_diff(seq, base, data).grid.cols == extent(cols)
            }
        }),
{
    crate::control::law_control_roundtrip(ControlView::Resize { cols, rows });
    let f = crate::requests::control_frame(ControlView::Resize { cols, rows });
    let sh = s.after_frame(f).shell->0;
    crate::shell::lemma_size_fits(rows, cols);
    assert(extent(rows) * extent(cols) >= 0) by (nonlinear_arith)
        requires
            extent(rows) >= 1,
            extent(cols) >= 1,
    ;
    assert(sh.wf());
    if sh.recorded().diff_frame() is Some {
        crate::shell::law_diff_catches_up(sh, client);
        let frame = sh.recorded().diff_frame()->0;
        if let FrameView::StateDiff { seq, base, data } = frame {
            assert(client.after_diff(seq, base, data).grid.render().rows == sh.screen.render().rows);
            assert(client.after_diff(seq, base, data).grid.render().cols == sh.screen.render().cols);
        }
    }
}

/// A shell is started as the client asked for it: with the rows, the columns, the
/// terminal type and the agent of its request. Its screen is blank and of that size. A
/// request that comes again while the shell runs starts no second one.
pub proof fn law_shell_starts_as_asked(s: ServerSessionView, v: RequestsView, r: int, c: int)
    requires
        v.open_shell,
        vstd::utf8::encode_utf8(v.term).len() <= u64::MAX,
        0 <= r < extent(v.rows),
        0 <= c < extent(v.cols),
    ensures
        ({
            let f = v.frames()[0];
            let t = s.spawned(v.rows, v.cols);
            &&& !s.pty ==> s.frame_action(f) == (PtyActionView::Spawn {
                cols: v.cols,
                rows: v.rows,
                term: v.term,
                agent: v.want_agent,
            })
            &&& s.pty ==> s.frame_action(f) == PtyActionView::Nothing
            &&& s.after_frame(f) == s
            &&& t.pty
            &&& t.shell is Some
            &&& t.shell->0.screen.rows == extent(v.rows)
            &&& t.shell->0.screen.cols == extent(v.cols)
            &&& t.shell->0.screen.at(r, c) == crate::cell::blank_cell()
            &&& t.shell->0.received == 0
            &&& t.frame_action(f) == PtyActionView::Nothing
            &&& t.after_frame(f) == t
        }),
{
    let m = ControlView::OpenShell {
        cols: v.cols,
        rows: v.rows,
        term: v.term,
        agent: v.want_agent,
    };
    crate::control::law_control_roundtrip(m);
    assert(v.frames()[0] == crate::requests::control_frame(m));
    crate::grid::lemma_index_bound(r, c, extent(v.rows), extent(v.cols));
}

/// What the user typed gets to the shell once: of the input that the client sends, the
/// server hands the shell exactly what it has not handed it before, and its
/// acknowledgement leaves the client with nothing to send again.
pub proof fn law_typed_input_gets_through(
    s: ServerSessionView,
    client: ClientShellView,
)
    requires
        s.shell is Some,
        s.pty,
        client.acked <= s.shell->0.received <= client.typed.len() <= u64::MAX,
        client.acked < client.typed.len(),
    ensures
        ({
            let f = client.frames()[0];
            let received = s.shell->0.received;
            let t = s.after_frame(f);
            &&& s.frame_action(f) == PtyActionView::Write(client.typed.skip(received as int))
            &&& t.shell is Some
            &&& t.shell->0.received == client.typed.len()
            &&& t.shell->0.screen == s.shell->0.screen
            &&& s.frame_reply(f) matches Some(FrameView::Ack { seq }) && {
                &&& client.input_acked(seq).acked == client.typed.len()
                &&& client.input_acked(seq).input_frames().len() == 0
                &&& client.input_acked(seq).typed == client.typed
            }
            &&& t.frame_action(f) == PtyActionView::Write(Seq::<u8>::empty())
        }),
{
    let f = client.frames()[0];
    let received = s.shell->0.received;
    let data = client.typed.skip(client.acked as int);
    assert(f == FrameView::Input { offset: client.acked as u64, data });
    assert(crate::input::fresh_bytes(received, client.acked as u64, data) =~= client.typed.skip(
        received as int,
    ));
    assert(crate::input::fresh_bytes(client.typed.len(), client.acked as u64, data) =~= Seq::<
        u8,
    >::empty());
}

/// What is typed later is sent behind what was typed before, from the first byte that
/// is not acknowledged on.
pub proof fn law_typing_appends(client: ClientShellView, bytes: Seq<u8>)
    requires
        client.wf(),
        client.typed.len() + bytes.len() <= u64::MAX,
        bytes.len() > 0,
    ensures
        ({
            let t = client.after_typing(bytes);
            &&& t.grid == client.grid
            &&& t.acked == client.acked
            &&& t.frames()[0] matches FrameView::Input { offset, data } && {
                &&& offset == client.acked
                &&& data == client.typed.skip(client.acked as int) + bytes
            }
        }),
{
    let t = client.after_typing(bytes);
    assert(t.typed.skip(t.acked as int) =~= client.typed.skip(client.acked as int) + bytes);
}

/// A client acknowledges the screen it shows, and a server whose last screen is
/// acknowledged has nothing to send.
pub proof fn law_acknowledged_screen_is_not_resent(server: ServerShellView, client: ClientShellView)
    requires
        server.wf(),
        client.current_seq == server.seq,
        server.history.contains_key(server.seq),
    ensures
        client.frames().last() matches FrameView::Ack { seq } && {
            &&& server.acked(seq).acked_seq == server.seq
            &&& server.acked(seq).diff_frame() is None
            &&& server.acked(seq).screen == server.screen
            &&& server.acked(seq).wf()
        },
{
    let t = server.acked(client.current_seq);
    assert(t.history.contains_key(t.acked_seq));
}

/// An acknowledgement that is old, or names a screen that was never recorded, does
/// nothing: what the client is known to have is never taken back.
pub proof fn law_stale_acknowledgement_is_ignored(server: ServerShellView, seq: u64)
    ensures
        server.acked(seq).acked_seq >= server.acked_seq,
        seq <= server.acked_seq || !server.history.contains_key(seq) ==> server.acked(seq)
            == server,
        seq > server.acked_seq && server.history.contains_key(seq) ==> server.acked(seq).acked_seq
            == seq,
{
}

/// A ping is answered by a pong with its stamp; it asks nothing of the shell and changes
/// nothing.
pub proof fn law_ping_is_returned(s: ServerSessionView, stamp: u64)
    ensures
        s.frame_reply(FrameView::Ping { stamp }) == Some(FrameView::Pong { stamp }),
        s.frame_action(FrameView::Ping { stamp }) == PtyActionView::Nothing,
        s.after_frame(FrameView::Ping { stamp }) == s,
{
}

/// The status with which the shell ended is what the client learns, and with it that
/// the shell has ended; it learns nothing else from that notice.
pub proof fn law_exit_status_gets_through(s: ServerSessionView, client: ClientView, status: i32)
    requires
        s.pty,
        s.exit_status is None,
    ensures
        ({
            let t = s.exit_noted(Some(status));
            let f = crate::requests::control_frame(ControlView::Exit { status });
            &&& t.exit_status == Some(status)
            &&& !t.pty
            &&& t.exit_sent() == t.sent(f)
            &&& client.after_frame(f) == (ClientView { exited: Some(status), ..client })
            &&& s.exit_noted(None) == s
            &&& t.exit_noted(Some(0)) == t
        }),
{
    crate::control::law_control_roundtrip(ControlView::Exit { status });
}

/// The server's version is what the client learns.
pub proof fn law_version_gets_through(s: ServerSessionView, client: ClientView)
    requires
        !s.announced,
        vstd::utf8::encode_utf8(crate::ssh::VERSION@).len() <= u64::MAX,
    ensures
        ({
            let f = crate::requests::control_frame(
                ControlView::ServerVersion(crate::ssh::VERSION@),
            );
            &&& s.version_sent() == s.sent(f)
            &&& client.after_frame(f) == (ClientView {
                server_version: Some(crate::ssh::VERSION@),
                ..client
            })
        }),
{
    crate::control::law_control_roundtrip(ControlView::ServerVersion(crate::ssh::VERSION@));
}

/// A shell is requested until its screen shows, and not once it does.
pub proof fn law_shell_is_requested_until_it_shows(client: ClientView)
    ensures
        client.settled().requests.open_shell <==> client.requests.open_shell
            && client.shell.current_seq == 0,
        client.settled().shell == client.shell,
        client.settled().events == client.events + client.mux.events,
        client.settled().mux.events.len() == 0,
{
}

/// A client sends what it requests, then what was typed and the acknowledgement of the
/// screen, then what its streams have to send; a screen update asks for an
/// acknowledgement, and sending it answers that.
pub proof fn law_client_sends_all(client: ClientView, seq: u64, base: u64, data: Seq<u8>)
    ensures
        client.frames() == client.requests.frames() + client.shell.input_frames() + seq![
            FrameView::Ack { seq: client.shell.current_seq },
        ] + client.mux.round_frames(),
        client.after_frame(FrameView::StateDiff { seq, base, data }).need_ack,
        client.session is Some && client.outgoing() is Ok ==> !client.after_outgoing().need_ack,
        client.session is Some ==> client.after_outgoing().shell == client.shell,
{
    let a = client.requests.frames();
    let b = client.shell.input_frames();
    let c = seq![FrameView::Ack { seq: client.shell.current_seq }];
    let d = client.mux.round_frames();
    assert(b.push(FrameView::Ack { seq: client.shell.current_seq }) =~= b + c);
    assert(a + (b + c) + d =~= a + b + c + d);
}

/// A client learns nothing from a frame that is not for it: requests of a client, input
/// and pings leave it as it was.
pub proof fn law_client_ignores_requests(client: ClientView, offset: u64, data: Seq<u8>, stamp: u64)
    ensures
        client.after_frame(FrameView::Input { offset, data }) == client,
        client.after_frame(FrameView::Ping { stamp }) == client,
        client.after_frame(FrameView::Pong { stamp }) == client,
{
}

} // verus!
