use vstd::prelude::*;

use crate::socket::{Socket, SOCKET_BUFFER_SIZE};
use crate::tcp::{
    established_step, recv_step, spec_child_sock_id, TCP,
};
use crate::tcpflags;
use crate::types::{Outgoing, RecvOutcome, Segment, SockID, TCPEvent};

verus! {

/// The two identifiers describe the two ends of one connection: each side's
/// local endpoint is the other side's remote endpoint.
pub open spec fn mirror_ids(a: SockID, b: SockID) -> bool {
    &&& a.local_addr == b.remote_addr
    &&& a.remote_addr == b.local_addr
    &&& a.local_port == b.remote_port
    &&& a.remote_port == b.local_port
}

/// The send stream of every well-formed connection keeps the oldest
/// unacknowledged byte at or below the next sequence to assign.
pub proof fn lemma_send_stream_ordered(s: Socket)
    requires
        s.wf(),
    ensures
        s.send_param.unacked_seq <= s.send_param.next,
{
}

/// The receive stream of every well-formed connection keeps the in-order
/// point at or below the highest buffered sequence, and the buffered span
/// within the free window.
pub proof fn lemma_receive_stream_ordered(s: Socket)
    requires
        s.wf(),
    ensures
        s.recv_param.next <= s.recv_param.tail,
        s.recv_param.tail as int - s.recv_param.next as int <= s.recv_param.window as int,
{
}

/// Both stream orderings hold of every connection of a well-formed
/// endpoint — the state every operation of `TCP` establishes and preserves.
pub proof fn lemma_registry_streams_ordered(t: TCP)
    requires
        t.wf(),
    ensures
        forall|i: int|
            0 <= i < t.sockets@.len() ==> {
                let s = #[trigger] t.sockets@[i];
                &&& s.send_param.unacked_seq <= s.send_param.next
                &&& s.recv_param.next <= s.recv_param.tail
            },
{
    assert forall|i: int|
        0 <= i < t.sockets@.len() implies {
        let s = #[trigger] t.sockets@[i];
        &&& s.send_param.unacked_seq <= s.send_param.next
        &&& s.recv_param.next <= s.recv_param.tail
    } by {
        assert(t.sockets@[i].wf());
    }
}

/// Conservation through reassembly: a handler step on an ESTABLISHED
/// connection that consumes no FIN leaves the receive budget
/// `window + (next - initial_seq)` unchanged — what the in-order point
/// gains, the free window loses.
pub proof fn lemma_reassembly_conserves_budget(
    s0: Socket,
    s1: Socket,
    seg: Segment,
    ev0: Seq<TCPEvent>,
    ev1: Seq<TCPEvent>,
    out0: Seq<Outgoing>,
    out1: Seq<Outgoing>,
)
    requires
        established_step(s0, s1, seg, ev0, ev1, out0, out1),
        seg.ack <= s0.send_param.next,
        seg.flags & tcpflags::ACK != 0,
        seg.flags & tcpflags::FIN == 0,
    ensures
        s1.recv_param.window as int + (s1.recv_param.next as int
            - s1.recv_param.initial_seq as int) == s0.recv_param.window as int + (
        s0.recv_param.next as int - s0.recv_param.initial_seq as int),
{
}

/// Conservation through delivery: `recv` credits the free window by exactly
/// the number of bytes handed to the user, and moves neither stream point.
pub proof fn lemma_delivery_credits_window(
    pre: Seq<Socket>,
    post: Seq<Socket>,
    i: int,
    want: int,
    outcome: RecvOutcome,
)
    requires
        0 <= i < pre.len(),
        post.len() == pre.len(),
        0 <= want,
        pre[i].wf(),
        recv_step(pre, post, i, want, outcome),
        SOCKET_BUFFER_SIZE as int - pre[i].recv_param.window as int > 0,
    ensures
        outcome matches RecvOutcome::Data(v) && post[i].recv_param.window as int
            == pre[i].recv_param.window as int + v@.len() && post[i].recv_param.next
            == pre[i].recv_param.next && post[i].recv_param.tail == pre[i].recv_param.tail,
{
}

/// The receive-side half of byte-stream preservation: an in-order segment
/// accepted by reassembly (the transform `Socket::process_payload`
/// guarantees when the segment starts at `next`, nothing is buffered past
/// `next`, and the payload fits in the free window) extends the readable
/// prefix of the receive buffer by exactly its payload, in order. The
/// send-side half is the concatenation clause of `send_step`, and `recv`
/// delivers exactly this prefix.
pub proof fn lemma_in_order_bytes_become_readable(
    s0: Socket,
    s1: Socket,
    seq: u32,
    payload: Seq<u8>,
)
    requires
        s0.wf(),
        payload.len() >= 1,
        seq == s0.recv_param.next,
        s0.recv_param.tail == s0.recv_param.next,
        payload.len() <= s0.recv_param.window as int,
        seq as int + payload.len() <= u32::MAX as int,
        s0.recv_buffer@.len() == SOCKET_BUFFER_SIZE,
        s1.recv_buffer@.len() == SOCKET_BUFFER_SIZE,
        forall|k: int|
            0 <= k < SOCKET_BUFFER_SIZE as int ==> s1.recv_buffer@[k] == (if s0.spec_recv_offset(
                seq,
            ) <= k < s0.spec_recv_offset(seq) + s0.spec_copy_len(seq, payload.len() as int) {
                payload[k - s0.spec_recv_offset(seq)]
            } else {
                s0.recv_buffer@[k]
            }),
        s1.recv_param.window as int == s0.recv_param.window as int - payload.len(),
    ensures
        s1.recv_buffer@.subrange(
            0,
            SOCKET_BUFFER_SIZE as int - s1.recv_param.window as int,
        ) == s0.recv_buffer@.subrange(
            0,
            SOCKET_BUFFER_SIZE as int - s0.recv_param.window as int,
        ) + payload,
{
    let off = SOCKET_BUFFER_SIZE as int - s0.recv_param.window as int;
    assert(s0.spec_recv_offset(seq) == off);
    assert(s0.spec_copy_len(seq, payload.len() as int) == payload.len());
    assert(s1.recv_buffer@.subrange(0, off + payload.len()) =~= s0.recv_buffer@.subrange(0, off)
        + payload);
}

/// The handshake yields mirrored four-tuples: the connection a listener
/// spawns for a SYN has the client's endpoints reversed. The client's SYN
/// carries the client's local port as its source, and it reaches the
/// listener bound to the endpoint the client dialled, over the address the
/// client dialled from.
pub proof fn lemma_handshake_mirror(client: SockID, listener: SockID, syn: Segment)
    requires
        syn.src_port == client.local_port,
        listener.local_addr == client.remote_addr,
        listener.local_port == client.remote_port,
    ensures
        mirror_ids(client, spec_child_sock_id(listener, client.local_addr, syn)),
{
}

} // verus!
