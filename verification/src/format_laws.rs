//! The bytes that messages are made of, as peers of other versions read them.

use crate::cell::{Cell, Color};
use crate::control::ControlView;
use crate::grid::RenderView;
use crate::transport::PacketView;
use crate::wire::{FrameView, StreamKind};
use vstd::prelude::*;

verus! {

/// The number that bytes of seven bits each stand for, the least significant first.
pub open spec fn little(s: Seq<u8>) -> nat
    decreases s.len(),
{
    if s.len() == 0 {
        0
    } else {
        (s[0] % 128) as nat + 128 * little(s.skip(1))
    }
}

/// A number is written in groups of seven bits, the least significant first, in as few
/// bytes as it takes; the high bit is set on every byte but the last.
pub proof fn law_varint_bytes(v: nat)
    ensures
        little(crate::wire::varint(v)) == v,
        crate::wire::varint(v).len() > 0,
        crate::wire::varint(v).last() < 128,
        crate::wire::varint(v).len() > 1 ==> crate::wire::varint(v).last() > 0,
        forall|i: int|
            0 <= i < crate::wire::varint(v).len() - 1 ==> #[trigger] crate::wire::varint(v)[i]
                >= 128,
        v < 128 ==> crate::wire::varint(v) == seq![v as u8],
    decreases v,
{
    let s = crate::wire::varint(v);
    if v < 128 {
        assert(s.skip(1) =~= Seq::<u8>::empty());
        assert(little(s.skip(1)) == 0);
    } else {
        let rest = crate::wire::varint(v / 128);
        law_varint_bytes(v / 128);
        assert(s.skip(1) =~= rest);
        assert(s[0] == (v % 128 + 128) as u8);
        assert((v % 128 + 128) as u8 % 128 == v % 128);
        assert(v == v % 128 + 128 * (v / 128));
        assert(s.last() == rest.last());
        assert forall|i: int| 0 <= i < s.len() - 1 implies #[trigger] s[i] >= 128 by {
            if i > 0 {
                assert(s[i] == rest[i - 1]);
            }
        }
    }
}

/// Bytes with their length in front.
pub open spec fn counted(data: Seq<u8>) -> Seq<u8> {
    crate::wire::varint(data.len()) + data
}

/// Each frame is its tag and then its fields in their order: numbers as they are written,
/// bytes with their length in front.
pub proof fn law_frame_format(a: u64, b: u64, w: u32, c: u16, d: u16, status: i32, data: Seq<u8>)
    ensures
        ({
            let n = |x: u64| crate::wire::varint(x as nat);
            let bytes = |f: FrameView| crate::wire::frame_bytes(f);
            &&& bytes(FrameView::Ack { seq: a }) == seq![0x01u8] + n(a)
            &&& bytes(FrameView::Input { offset: a, data }) == seq![0x02u8] + n(a) + counted(data)
            &&& bytes(FrameView::StateDiff { seq: a, base: b, data }) == seq![0x03u8] + n(a) + n(b)
                + counted(data)
            &&& bytes(FrameView::Resize { cols: c, rows: d }) == seq![0x04u8] + n(c as u64) + n(
                d as u64,
            )
            &&& bytes(FrameView::Ping { stamp: a }) == seq![0x05u8] + n(a)
            &&& bytes(FrameView::Pong { stamp: a }) == seq![0x06u8] + n(a)
            &&& bytes(FrameView::StreamAck { id: a, ack: b, window: w }) == seq![0x12u8] + n(a) + n(
                b,
            ) + n(w as u64)
            &&& status >= 0 ==> bytes(FrameView::StreamClose { id: a, status }) == seq![0x13u8] + n(
                a,
            ) + n((2 * status) as u64)
            &&& status < 0 ==> bytes(FrameView::StreamClose { id: a, status }) == seq![0x13u8] + n(
                a,
            ) + n((-2 * status - 1) as u64)
            &&& bytes(FrameView::StreamReset { id: a }) == seq![0x14u8] + n(a)
            &&& bytes(FrameView::Control { data }) == seq![0x20u8] + counted(data)
        }),
{
    assert(crate::wire::bytes_field(data) =~= counted(data));
}

/// The frames of streams: a stream is opened by its id, a byte for its kind and what it
/// is for, and its bytes come with its id, their offset and a byte that says whether
/// they are the last.
pub proof fn law_stream_frame_format(id: u64, offset: u64, data: Seq<u8>)
    ensures
        ({
            let n = |x: u64| crate::wire::varint(x as nat);
            let open = |kind: StreamKind| crate::wire::frame_bytes(
                FrameView::StreamOpen { id, kind, meta: data },
            );
            &&& open(StreamKind::Session) == seq![0x10u8] + n(id) + seq![0u8] + counted(data)
            &&& open(StreamKind::Forward) == seq![0x10u8] + n(id) + seq![1u8] + counted(data)
            &&& open(StreamKind::FileTransfer) == seq![0x10u8] + n(id) + seq![2u8] + counted(data)
            &&& open(StreamKind::Agent) == seq![0x10u8] + n(id) + seq![3u8] + counted(data)
            &&& crate::wire::frame_bytes(FrameView::StreamData { id, offset, data, fin: true })
                == seq![0x11u8] + n(id) + n(offset) + seq![1u8] + counted(data)
            &&& crate::wire::frame_bytes(FrameView::StreamData { id, offset, data, fin: false })
                == seq![0x11u8] + n(id) + n(offset) + seq![0u8] + counted(data)
        }),
{
    assert(crate::wire::bytes_field(data) =~= counted(data));
}

/// Frames stand one behind the other.
pub proof fn law_frames_in_order(a: Seq<FrameView>, b: Seq<FrameView>)
    ensures
        crate::wire::frames_bytes(a + b) == crate::wire::frames_bytes(a) + crate::wire::frames_bytes(
            b,
        ),
    decreases b.len(),
{
    if b.len() == 0 {
        assert(a + b =~= a);
        assert(crate::wire::frames_bytes(a) + Seq::<u8>::empty() =~= crate::wire::frames_bytes(a));
    } else {
        law_frames_in_order(a, b.drop_last());
        assert((a + b).drop_last() =~= a + b.drop_last());
        assert((a + b).last() == b.last());
        assert(crate::wire::frames_bytes(a) + (crate::wire::frames_bytes(b.drop_last())
            + crate::wire::frame_bytes(b.last())) =~= (crate::wire::frames_bytes(a)
            + crate::wire::frames_bytes(b.drop_last())) + crate::wire::frame_bytes(b.last()));
    }
}

/// Each control message is its tag and then its fields in their order.
pub proof fn law_control_format(c: u16, d: u16, text: Seq<char>, flag: bool, status: i32)
    ensures
        ({
            let n = |x: u16| crate::wire::varint(x as nat);
            let t = counted(vstd::utf8::encode_utf8(text));
            let f = seq![
                if flag {
                    1u8
                } else {
                    0u8
                },
            ];
            let bytes = |m: ControlView| crate::control::control_bytes(m);
            &&& bytes(ControlView::OpenShell { cols: c, rows: d, term: text, agent: flag })
                == seq![1u8] + n(c) + n(d) + t + f
            &&& bytes(ControlView::Resize { cols: c, rows: d }) == seq![2u8] + n(c) + n(d)
            &&& status >= 0 ==> bytes(ControlView::Exit { status }) == seq![3u8]
                + crate::wire::varint((2 * status) as nat)
            &&& bytes(ControlView::AuthPrompt { echo: flag, prompt: text }) == seq![4u8] + f + t
            &&& bytes(ControlView::AuthResponse { data: text }) == seq![5u8] + t
            &&& bytes(ControlView::RemoteForward { bind_port: c, target: text }) == seq![6u8] + n(c)
                + t
            &&& bytes(ControlView::Bye) == seq![7u8]
            &&& bytes(ControlView::ServerVersion(text)) == seq![8u8] + t
        }),
{
    let t = vstd::utf8::encode_utf8(text);
    assert(crate::wire::bytes_field(t) =~= counted(t));
}

/// A packet is a byte for its type and the session's id, and then, for one that is
/// encrypted, the nonce as eight bytes, the most significant first, and the body.
pub proof fn law_packet_format(id: Seq<u8>, nonce: u64, body: Seq<u8>)
    requires
        id.len() == 8,
    ensures
        ({
            let h = crate::transport::packet_bytes(PacketView::Handshake { id, body });
            let p = crate::transport::packet_bytes(PacketView::Transport { id, nonce, body });
            &&& h[0] == 0
            &&& h.subrange(1, 9) == id
            &&& h.skip(9) == body
            &&& p[0] == 1
            &&& p.subrange(1, 9) == id
            &&& p[9] == nonce / 0x100000000000000
            &&& p[16] == nonce % 0x100
            &&& crate::transport::be_value(p.subrange(9, 17)) == nonce
            &&& p.skip(17) == body
        }),
{
    let h = crate::transport::packet_bytes(PacketView::Handshake { id, body });
    let p = crate::transport::packet_bytes(PacketView::Transport { id, nonce, body });
    crate::transport::lemma_be_roundtrip(nonce);
    assert(h.subrange(1, 9) =~= id);
    assert(h.skip(9) =~= body);
    assert(p.subrange(1, 9) =~= id);
    assert(p.subrange(9, 17) =~= crate::transport::be_bytes(nonce));
    assert(p[9] == crate::transport::be_bytes(nonce)[0]);
    assert(p[16] == crate::transport::be_bytes(nonce)[7]);
    assert(p.skip(17) =~= body);
}

/// A screen update begins with a byte that says whether it is whole, and then the rows,
/// the columns, the cursor's row and column and whether it shows.
pub proof fn law_screen_format(base: Option<RenderView>, g: RenderView, cell: Cell)
    ensures
        ({
            let n = |x: int| crate::wire::varint(x as nat);
            let head = n(g.rows) + n(g.cols) + n(g.cursor_row) + n(g.cursor_col) + seq![
                if g.cursor_visible {
                    1u8
                } else {
                    0u8
                },
            ];
            let d = crate::diff::diff_bytes(base, g);
            let partial = base matches Some(b) && b.rows == g.rows && b.cols == g.cols;
            let k = 1 + head.len();
            &&& d.len() >= k
            &&& d[0] == if partial {
                1u8
            } else {
                0u8
            }
            &&& d.subrange(1, k as int) == head
            &&& crate::diff::color_bytes(Color::Default) == seq![0u8]
            &&& crate::diff::cell_bytes(cell) == crate::wire::varint((cell.ch as u32) as nat)
                + crate::diff::color_bytes(cell.fg) + crate::diff::color_bytes(cell.bg) + seq![
                cell.flags,
            ]
        }),
{
    let d = crate::diff::diff_bytes(base, g);
    let head = crate::diff::header_bytes(g);
    assert(d.subrange(1, 1 + head.len() as int) =~= head);
}

/// A partial update lists exactly the cells that differ, in their order.
pub proof fn law_update_lists_changes(base: Seq<Cell>, target: Seq<Cell>, n: int, i: int)
    requires
        0 <= n <= base.len(),
        base.len() == target.len(),
    ensures
        ({
            let at = crate::diff::changed(base, target, n);
            &&& at.contains(i) <==> 0 <= i < n && base[i] != target[i]
            &&& forall|j: int, k: int|
                0 <= j < k < at.len() ==> #[trigger] at[j] < #[trigger] at[k]
            &&& forall|j: int| 0 <= j < at.len() ==> 0 <= #[trigger] at[j] < n
        }),
    decreases n,
{
    let at = crate::diff::changed(base, target, n);
    if n > 0 {
        law_update_lists_changes(base, target, n - 1, i);
        let before = crate::diff::changed(base, target, n - 1);
        if base[n - 1] != target[n - 1] {
            assert(at == before.push(n - 1));
            assert(at[at.len() - 1] == n - 1);
            if before.contains(i) {
                let k = choose|k: int| 0 <= k < before.len() && before[k] == i;
                assert(at[k] == i);
            }
            if at.contains(i) && i != n - 1 {
                let k = choose|k: int| 0 <= k < at.len() && at[k] == i;
                assert(before[k] == i);
            }
        }
    }
}

} // verus!
