use vstd::prelude::*;

use crate::rng::{random_u16_in, random_u32_in};
use crate::socket::{entry_from, retransmission_of, spec_prune, spec_socket_scan};
use crate::socket::{spec_timer_events, Socket, MSS, PORT_RANGE_END, PORT_RANGE_START};
use crate::socket::SOCKET_BUFFER_SIZE;
use crate::tcpflags;
use crate::types::{copy_range, seg_matches, CloseOutcome, Outgoing, RecvOutcome, Segment};
use crate::types::{SockID, TCPEvent, TCPEventKind, TcpError, TcpStatus};
use crate::types::{UNDETERMINED_IP_ADDR, UNDETERMINED_PORT};

verus! {

/// The state of a connection freshly opened by the active side: SYN-SENT,
/// the initial sequence chosen, the SYN occupying one sequence number and
/// sitting on the retransmission queue as its only entry.
pub open spec fn fresh_syn_sent(
    s: Socket,
    local_addr: u32,
    remote_addr: u32,
    local_port: u16,
    remote_port: u16,
    iss: u32,
    now: u64,
) -> bool {
    &&& s.sock_id == (SockID { local_addr, remote_addr, local_port, remote_port })
    &&& s.status == TcpStatus::SynSent
    &&& s.send_param.initial_seq == iss
    &&& s.send_param.unacked_seq == iss
    &&& s.send_param.next == iss + 1
    &&& s.send_param.window == 0
    &&& s.recv_param.next == 0 && s.recv_param.tail == 0
    &&& s.recv_param.window == SOCKET_BUFFER_SIZE as u16
    &&& s.retransmission_queue@.len() == 1
    &&& s.retransmission_queue@[0].segment.seq == iss
    &&& s.retransmission_queue@[0].segment.flags == tcpflags::SYN
    &&& s.retransmission_queue@[0].segment.payload@.len() == 0
    &&& s.retransmission_queue@[0].latest_transmission_time == now
    &&& s.retransmission_queue@[0].transmission_count == 1
    &&& s.connection_queue@.len() == 0
    &&& s.listening_socket is None
}

/// The shared acceptance policy for cumulative acknowledgements: an ACK is
/// accepted exactly when it advances past `unacked_seq` without overtaking
/// `next`.
pub open spec fn ack_acceptable(s: Socket, ack: u32) -> bool {
    s.send_param.unacked_seq < ack && ack <= s.send_param.next
}

/// What one segment does to an ESTABLISHED (or FIN-WAIT data-bearing)
/// connection: ACK accounting on `unacked_seq`, a wholesale drop of
/// acknowledgements beyond `next`, nothing past accounting without the ACK
/// flag, conservation of `next + window` on the receive side while no FIN
/// is consumed, no advance of the in-order point on out-of-order data, and
/// the passive-close effects of an accepted bare FIN. The per-byte effect
/// of reassembly is the contract of `Socket::process_payload`.
pub open spec fn established_step(
    s0: Socket,
    s1: Socket,
    seg: Segment,
    ev0: Seq<TCPEvent>,
    ev1: Seq<TCPEvent>,
    out0: Seq<Outgoing>,
    out1: Seq<Outgoing>,
) -> bool {
    let beyond = seg.ack > s0.send_param.next;
    let acc = ack_acceptable(s0, seg.ack);
    let no_ack_flag = seg.flags & tcpflags::ACK == 0;
    let fin = seg.flags & tcpflags::FIN != 0;
    &&& (no_ack_flag ==> s1 == s0 && ev1 == ev0 && out1 == out0)
    &&& (!no_ack_flag ==> {
        &&& s1.sock_id == s0.sock_id
        &&& s1.listening_socket == s0.listening_socket
        &&& s1.connection_queue@ == s0.connection_queue@
        &&& s1.send_param.next == s0.send_param.next
        &&& s1.send_param.initial_seq == s0.send_param.initial_seq
        &&& (acc ==> s1.send_param.unacked_seq == seg.ack)
        &&& (!acc ==> s1.send_param.unacked_seq == s0.send_param.unacked_seq)
        &&& (beyond ==> s1 == s0 && ev1 == ev0 && out1 == out0)
        // the accepted ACK prunes the queue first: the acknowledged prefix
        // leaves, its payload lengths are credited back to the window, and
        // one Acked is announced per removal
        &&& (acc ==> {
            let pr = spec_prune(s0.retransmission_queue@, seg.ack, s0.send_param.window as int);
            &&& s1.retransmission_queue@ == pr.0
            &&& s1.send_param.window as int == pr.1
            &&& ev1.len() >= ev0.len() + pr.2
            &&& ev1.subrange(ev0.len() as int, ev0.len() + pr.2) == Seq::new(
                pr.2 as nat,
                |x: int| TCPEvent { sock_id: s0.sock_id, kind: TCPEventKind::Acked },
            )
        })
        &&& (!acc && !beyond ==> s1.retransmission_queue@ == s0.retransmission_queue@
            && s1.send_param.window == s0.send_param.window)
        &&& (!beyond ==> {
            &&& s1.recv_param.initial_seq == s0.recv_param.initial_seq
            &&& (!fin ==> s1.status == s0.status && s1.recv_param.next as int
                + s1.recv_param.window as int == s0.recv_param.next as int
                + s0.recv_param.window as int)
            &&& (seg.payload@.len() >= 1 && !fin && seg.seq < s0.recv_param.next
                ==> s1.recv_param == s0.recv_param && s1.recv_buffer@ == s0.recv_buffer@ && out1
                == out0)
            &&& (seg.payload@.len() >= 1 && !fin && seg.seq > s0.recv_param.next
                ==> s1.recv_param.next == s0.recv_param.next)
            &&& (fin ==> s1.status == TcpStatus::CloseWait || s1.status == s0.status)
            &&& (fin && s1.status != s0.status ==> s1.status == TcpStatus::CloseWait
                && s1.recv_param.next == seg.seq + 1 && out1.len() > out0.len()
                && out1.last().segment.ack == seg.seq + 1 && out1.last().segment.flags
                == tcpflags::ACK && ev1.len() > ev0.len() && ev1.last() == (TCPEvent {
                sock_id: s0.sock_id,
                kind: TCPEventKind::DataArrived,
            }))
            &&& (fin && seg.payload@.len() == 0 && seg.seq < u32::MAX && seg.seq
                >= s0.recv_param.tail ==> s1.status == TcpStatus::CloseWait && s1.recv_param.next
                == seg.seq + 1 && out1.len() == out0.len() + 1 && out1.last().segment.ack
                == seg.seq + 1 && out1.last().segment.flags == tcpflags::ACK && ev1.len()
                > ev0.len() && ev1.last() == (TCPEvent {
                sock_id: s0.sock_id,
                kind: TCPEventKind::DataArrived,
            }))
        })
    })
}

/// What one segment does to a FIN-WAIT-1 or FIN-WAIT-2 connection: the same
/// ACK accounting and reassembly as ESTABLISHED; FIN-WAIT-1 moves to
/// FIN-WAIT-2 once the connection's own FIN is acknowledged
/// (`next == unacked_seq`); a FIN from the peer consumes one sequence
/// number, is answered with a bare ACK and announces `ConnectionClosed`.
pub open spec fn finwait_step(
    s0: Socket,
    s1: Socket,
    seg: Segment,
    ev0: Seq<TCPEvent>,
    ev1: Seq<TCPEvent>,
    out0: Seq<Outgoing>,
    out1: Seq<Outgoing>,
) -> bool {
    let beyond = seg.ack > s0.send_param.next;
    let acc = ack_acceptable(s0, seg.ack);
    let no_ack_flag = seg.flags & tcpflags::ACK == 0;
    let fin = seg.flags & tcpflags::FIN != 0;
    &&& (no_ack_flag ==> s1 == s0 && ev1 == ev0 && out1 == out0)
    &&& (!no_ack_flag ==> {
        &&& s1.sock_id == s0.sock_id
        &&& s1.listening_socket == s0.listening_socket
        &&& s1.connection_queue@ == s0.connection_queue@
        &&& s1.send_param.next == s0.send_param.next
        &&& s1.send_param.initial_seq == s0.send_param.initial_seq
        &&& (acc ==> s1.send_param.unacked_seq == seg.ack)
        &&& (!acc ==> s1.send_param.unacked_seq == s0.send_param.unacked_seq)
        &&& (beyond ==> s1 == s0 && ev1 == ev0 && out1 == out0)
        &&& (acc ==> {
            let pr = spec_prune(s0.retransmission_queue@, seg.ack, s0.send_param.window as int);
            &&& s1.retransmission_queue@ == pr.0
            &&& s1.send_param.window as int == pr.1
            &&& ev1.len() >= ev0.len() + pr.2
            &&& ev1.subrange(ev0.len() as int, ev0.len() + pr.2) == Seq::new(
                pr.2 as nat,
                |x: int| TCPEvent { sock_id: s0.sock_id, kind: TCPEventKind::Acked },
            )
        })
        &&& (!acc && !beyond ==> s1.retransmission_queue@ == s0.retransmission_queue@
            && s1.send_param.window == s0.send_param.window)
        &&& (!beyond ==> {
            &&& (s0.status == TcpStatus::FinWait1 && !fin ==> s1.status == (
            if s1.send_param.unacked_seq == s0.send_param.next {
                TcpStatus::FinWait2
            } else {
                TcpStatus::FinWait1
            }))
            &&& (s0.status == TcpStatus::FinWait2 && !fin ==> s1.status == TcpStatus::FinWait2)
            &&& (fin && seg.payload@.len() == 0 && s0.recv_param.next < u32::MAX ==> {
                &&& s1.recv_param.next == s0.recv_param.next + 1
                &&& out1.len() == out0.len() + 1
                &&& out1.last().segment.flags == tcpflags::ACK
                &&& out1.last().segment.ack == s0.recv_param.next + 1
                &&& ev1.len() > ev0.len()
                &&& ev1.last() == (TCPEvent {
                    sock_id: s0.sock_id,
                    kind: TCPEventKind::ConnectionClosed,
                })
            })
        })
    })
}

/// What an acknowledgement does to a CLOSE-WAIT or LAST-ACK connection:
/// only the cumulative-ACK bookkeeping (under the shared acceptance
/// policy); pruning, and the `ConnectionClosed` publication of LAST-ACK,
/// happen inside the timer scan so a final ACK arriving between ticks is
/// still observed.
pub open spec fn close_wait_step(s0: Socket, s1: Socket, seg: Segment) -> bool {
    let no_ack_flag = seg.flags & tcpflags::ACK == 0;
    &&& (no_ack_flag ==> s1 == s0)
    &&& (!no_ack_flag ==> {
        &&& (ack_acceptable(s0, seg.ack) ==> s1.send_param.unacked_seq == seg.ack)
        &&& (!ack_acceptable(s0, seg.ack) ==> s1.send_param.unacked_seq
            == s0.send_param.unacked_seq)
        &&& s1.sock_id == s0.sock_id
        &&& s1.status == s0.status
        &&& s1.send_param.next == s0.send_param.next
        &&& s1.send_param.initial_seq == s0.send_param.initial_seq
        &&& s1.send_param.window == s0.send_param.window
        &&& s1.recv_param == s0.recv_param
        &&& s1.recv_buffer@ == s0.recv_buffer@
        &&& s1.retransmission_queue@ == s0.retransmission_queue@
        &&& s1.connection_queue@ == s0.connection_queue@
        &&& s1.listening_socket == s0.listening_socket
    })
}

/// What a SYN|ACK does to a SYN-SENT connection. The reply is accepted with
/// `unacked_seq <= ack <= next` (non-strict, so the simultaneous-open
/// crossover where the peer has not yet acknowledged the SYN is kept): the
/// receive stream is anchored at the peer's sequence, the peer's window is
/// recorded, and either the connection completes (its SYN acknowledged:
/// ESTABLISHED, bare ACK, `ConnectionCompleted`) or it crosses over to
/// SYN-RECEIVED, replying with a bare ACK.
pub open spec fn synsent_step(
    s0: Socket,
    s1: Socket,
    seg: Segment,
    ev0: Seq<TCPEvent>,
    ev1: Seq<TCPEvent>,
    out0: Seq<Outgoing>,
    out1: Seq<Outgoing>,
) -> bool {
    let ok = seg.flags & tcpflags::ACK != 0 && seg.flags & tcpflags::SYN != 0
        && s0.send_param.unacked_seq <= seg.ack && seg.ack <= s0.send_param.next && seg.seq
        < u32::MAX;
    &&& (!ok ==> s1 == s0 && ev1 == ev0 && out1 == out0)
    &&& (ok ==> {
        &&& s1.sock_id == s0.sock_id
        &&& s1.recv_param.next == seg.seq + 1
        &&& s1.recv_param.initial_seq == seg.seq
        &&& s1.recv_param.tail == seg.seq + 1
        &&& s1.send_param.unacked_seq == seg.ack
        &&& s1.send_param.window == seg.window
        &&& s1.send_param.next == s0.send_param.next
        &&& s1.send_param.initial_seq == s0.send_param.initial_seq
        &&& out1.len() == out0.len() + 1
        &&& out1.last().sock_id == s0.sock_id
        &&& out1.last().segment.flags == tcpflags::ACK
        &&& out1.last().segment.seq == s0.send_param.next
        &&& out1.last().segment.ack == seg.seq + 1
        &&& out1.last().segment.payload@.len() == 0
        &&& (seg.ack > s0.send_param.initial_seq ==> s1.status == TcpStatus::Established
            && ev1.len() == ev0.len() + 1 && ev1.last() == (TCPEvent {
            sock_id: s0.sock_id,
            kind: TCPEventKind::ConnectionCompleted,
        }))
        &&& (seg.ack <= s0.send_param.initial_seq ==> s1.status == TcpStatus::SynRcvd && ev1
            == ev0)
    })
}

/// The state of the connection a listener spawns on a fresh SYN:
/// SYN-RECEIVED, the receive stream anchored just past the peer's sequence,
/// the peer's advertised window recorded, and the SYN|ACK (one sequence
/// number) on the retransmission queue as its only entry.
pub open spec fn fresh_syn_rcvd(
    s: Socket,
    listener_id: SockID,
    remote_addr: u32,
    seg: Segment,
    iss: u32,
    now: u64,
) -> bool {
    &&& s.sock_id == (SockID {
        local_addr: listener_id.local_addr,
        remote_addr,
        local_port: listener_id.local_port,
        remote_port: seg.src_port,
    })
    &&& s.status == TcpStatus::SynRcvd
    &&& s.recv_param.next == seg.seq + 1
    &&& s.recv_param.initial_seq == seg.seq
    &&& s.recv_param.tail == seg.seq + 1
    &&& s.recv_param.window == SOCKET_BUFFER_SIZE as u16
    &&& s.send_param.initial_seq == iss
    &&& s.send_param.unacked_seq == iss
    &&& s.send_param.next == iss + 1
    &&& s.send_param.window == seg.window
    &&& s.retransmission_queue@.len() == 1
    &&& s.retransmission_queue@[0].segment.seq == iss
    &&& s.retransmission_queue@[0].segment.ack == seg.seq + 1
    &&& s.retransmission_queue@[0].segment.flags == (tcpflags::SYN | tcpflags::ACK)
    &&& s.retransmission_queue@[0].segment.payload@.len() == 0
    &&& s.retransmission_queue@[0].latest_transmission_time == now
    &&& s.retransmission_queue@[0].transmission_count == 1
    &&& s.connection_queue@.len() == 0
    &&& s.listening_socket == Some(listener_id)
}

/// What the handshake-completing ACK does to a SYN-RECEIVED connection at
/// registry index `i` and to its spawning listener: under the shared
/// acceptance policy the connection becomes ESTABLISHED (its receive stream
/// untouched by the bare ACK) and the listener's acceptance queue gains the
/// completed identifier, announced as `ConnectionCompleted` on the listener.
pub open spec fn synrcvd_step(
    pre: Seq<Socket>,
    post: Seq<Socket>,
    i: int,
    seg: Segment,
    ev0: Seq<TCPEvent>,
    ev1: Seq<TCPEvent>,
) -> bool {
    let s0 = pre[i];
    let s1 = post[i];
    let ok = seg.flags & tcpflags::ACK != 0 && ack_acceptable(s0, seg.ack);
    &&& (forall|j: int|
        0 <= j < pre.len() && pre[j].sock_id != s0.sock_id && Some(pre[j].sock_id)
            != s0.listening_socket ==> post[j] == pre[j])
    &&& (!ok ==> post == pre && ev1 == ev0)
    &&& (ok ==> {
        &&& s1.sock_id == s0.sock_id
        &&& s1.status == TcpStatus::Established
        &&& s1.send_param.unacked_seq == seg.ack
        &&& s1.send_param.next == s0.send_param.next
        &&& s1.send_param.initial_seq == s0.send_param.initial_seq
        &&& s1.send_param.window == s0.send_param.window
        &&& s1.recv_param == s0.recv_param
        &&& s1.recv_buffer@ == s0.recv_buffer@
        &&& s1.retransmission_queue@ == s0.retransmission_queue@
        &&& s1.listening_socket == s0.listening_socket
        &&& (s0.listening_socket != Some(s0.sock_id) ==> s1.connection_queue@
            == s0.connection_queue@)
        &&& (forall|li: int|
            0 <= li < pre.len() && li != i && Some((#[trigger] pre[li]).sock_id)
                == s0.listening_socket ==> post[li].connection_queue@
                == pre[li].connection_queue@.push(s0.sock_id) && ev1 == ev0.push(
                TCPEvent { sock_id: pre[li].sock_id, kind: TCPEventKind::ConnectionCompleted },
            ))
    })
}

/// The bytes carried by `out[from..to]`, in order.
pub open spec fn out_payload_concat(out: Seq<Outgoing>, from: int, to: int) -> Seq<u8>
    decreases to - from,
{
    if from >= to {
        Seq::empty()
    } else {
        out_payload_concat(out, from, to - 1) + out[to - 1].segment.payload@
    }
}

/// The concatenation reads only the entries of `[from, to)`.
pub proof fn lemma_concat_agrees(a: Seq<Outgoing>, b: Seq<Outgoing>, from: int, to: int)
    requires
        0 <= from,
        to <= a.len(),
        to <= b.len(),
        forall|j: int| from <= j < to ==> a[j] == b[j],
    ensures
        out_payload_concat(a, from, to) == out_payload_concat(b, from, to),
    decreases to - from,
{
    if from < to {
        lemma_concat_agrees(a, b, from, to - 1);
    }
}

/// The greedy segment size: as much as fits under the segment-size cap,
/// the remaining send window and the remaining bytes.
pub open spec fn spec_send_size(window: int, rem: int) -> int {
    let m = if window < rem {
        window
    } else {
        rem
    };
    if (MSS as int) < m {
        MSS as int
    } else {
        m
    }
}

/// Segment `j` of a send burst recorded in `out[base..]`: addressed to the
/// connection, flagged ACK, acknowledging the current in-order receive
/// point, cut greedily to `min(MSS, remaining window, remaining bytes)` and
/// numbered consecutively from `next`, `prior` bytes (the payloads before
/// it) into the burst.
pub open spec fn sent_segment_ok(
    out: Seq<Outgoing>,
    base: int,
    j: int,
    s0: Socket,
    buf: Seq<u8>,
    cursor: int,
) -> bool {
    let o = out[j];
    let prior = out_payload_concat(out, base, j).len() as int;
    &&& o.sock_id == s0.sock_id
    &&& o.segment.flags == tcpflags::ACK
    &&& o.segment.ack == s0.recv_param.next
    &&& o.segment.src_port == s0.sock_id.local_port
    &&& o.segment.dst_port == s0.sock_id.remote_port
    &&& 1 <= o.segment.payload@.len() <= MSS
    &&& o.segment.payload@.len() == spec_send_size(
        s0.send_param.window as int - prior,
        buf.len() - (cursor + prior),
    )
    &&& o.segment.seq as int == s0.send_param.next + prior
}

/// What one `send` call does to the connection at registry index `i`: it
/// cuts `buf[cursor..nc]` into segments of at most MSS bytes, each flagged
/// ACK, acknowledging `recv_param.next`, numbered consecutively from
/// `send_param.next` and mirrored on the retransmission queue;
/// `next` advances and the window shrinks by exactly the bytes sent, and
/// the call stops short of the buffer's end only with the window exhausted.
pub open spec fn send_step(
    pre: Seq<Socket>,
    post: Seq<Socket>,
    i: int,
    buf: Seq<u8>,
    cursor: int,
    nc: int,
    now: u64,
    out0: Seq<Outgoing>,
    out1: Seq<Outgoing>,
) -> bool {
    let s0 = pre[i];
    let s1 = post[i];
    let d = nc - cursor;
    &&& cursor <= nc <= buf.len()
    &&& (forall|j: int| 0 <= j < pre.len() && j != i ==> post[j] == pre[j])
    &&& s1.sock_id == s0.sock_id
    &&& s1.status == s0.status
    &&& s1.recv_param == s0.recv_param
    &&& s1.recv_buffer@ == s0.recv_buffer@
    &&& s1.connection_queue@ == s0.connection_queue@
    &&& s1.listening_socket == s0.listening_socket
    &&& s1.send_param.unacked_seq == s0.send_param.unacked_seq
    &&& s1.send_param.initial_seq == s0.send_param.initial_seq
    &&& s1.send_param.next == s0.send_param.next + d
    &&& s1.send_param.window == s0.send_param.window - d
    &&& (nc < buf.len() ==> s1.send_param.window == 0)
    &&& out1.len() >= out0.len()
    &&& out1.subrange(0, out0.len() as int) == out0
    &&& out_payload_concat(out1, out0.len() as int, out1.len() as int) == buf.subrange(cursor, nc)
    &&& (forall|j: int|
        out0.len() <= j < out1.len() ==> #[trigger] sent_segment_ok(
            out1,
            out0.len() as int,
            j,
            s0,
            buf,
            cursor,
        ))
    &&& s1.retransmission_queue@.len() == s0.retransmission_queue@.len() + (out1.len()
        - out0.len())
    &&& (forall|j: int|
        0 <= j < s0.retransmission_queue@.len() ==> (#[trigger] s1.retransmission_queue@[j])
            == s0.retransmission_queue@[j])
    &&& (forall|j: int|
        s0.retransmission_queue@.len() <= j < s1.retransmission_queue@.len() ==> {
            let e = #[trigger] s1.retransmission_queue@[j];
            let o = out1[out0.len() + (j - s0.retransmission_queue@.len())];
            &&& seg_matches(e.segment, o.segment)
            &&& e.latest_transmission_time == now
            &&& e.transmission_count == 1
        })
}

/// What one `recv` call does to the connection at registry index `i`:
/// nothing when nothing is buffered (empty data signals the peer's FIN in
/// the closing states, otherwise the caller parks); else the first
/// `min(want, buffered)` bytes leave the front of the buffer, the rest
/// shifts down, and exactly the delivered count is credited back to the
/// receive window.
pub open spec fn recv_step(
    pre: Seq<Socket>,
    post: Seq<Socket>,
    i: int,
    want: int,
    outcome: RecvOutcome,
) -> bool {
    let s0 = pre[i];
    let s1 = post[i];
    let avail = SOCKET_BUFFER_SIZE as int - s0.recv_param.window as int;
    let closing = s0.status == TcpStatus::CloseWait || s0.status == TcpStatus::LastAck
        || s0.status == TcpStatus::TimeWait;
    let copy = if want < avail {
        want
    } else {
        avail
    };
    &&& (forall|j: int| 0 <= j < pre.len() && j != i ==> post[j] == pre[j])
    &&& (avail == 0 && closing ==> post == pre && (outcome matches RecvOutcome::Data(v)
        && v@.len() == 0))
    &&& (avail == 0 && !closing ==> post == pre && (outcome is WouldBlock))
    &&& (avail > 0 ==> {
        &&& outcome matches RecvOutcome::Data(v) && v@ == s0.recv_buffer@.subrange(0, copy)
        &&& s1.recv_param.window == s0.recv_param.window + copy
        &&& s1.recv_param.next == s0.recv_param.next
        &&& s1.recv_param.tail == s0.recv_param.tail
        &&& s1.recv_param.initial_seq == s0.recv_param.initial_seq
        &&& s1.recv_buffer@.len() == SOCKET_BUFFER_SIZE
        &&& (forall|k: int|
            0 <= k < SOCKET_BUFFER_SIZE - copy ==> s1.recv_buffer@[k] == s0.recv_buffer@[k
                + copy])
        &&& s1.sock_id == s0.sock_id
        &&& s1.status == s0.status
        &&& s1.send_param == s0.send_param
        &&& s1.retransmission_queue@ == s0.retransmission_queue@
        &&& s1.connection_queue@ == s0.connection_queue@
        &&& s1.listening_socket == s0.listening_socket
    })
}

/// What `close` does to the connection at registry index `i`: a listener
/// leaves the registry without a segment; otherwise a FIN|ACK numbered
/// `next` goes out (and onto the retransmission queue), `next` advances by
/// the one sequence number the FIN consumes, and ESTABLISHED or CLOSE-WAIT
/// move to FIN-WAIT-1 or LAST-ACK, awaiting `ConnectionClosed`.
pub open spec fn close_step(
    pre: Seq<Socket>,
    post: Seq<Socket>,
    i: int,
    outcome: CloseOutcome,
    now: u64,
    out0: Seq<Outgoing>,
    out1: Seq<Outgoing>,
) -> bool {
    let s0 = pre[i];
    let s1 = post[i];
    &&& (s0.status == TcpStatus::Listen ==> outcome == CloseOutcome::Removed && post
        == pre.remove(i) && out1 == out0)
    &&& (s0.status != TcpStatus::Listen ==> {
        &&& (forall|j: int| 0 <= j < pre.len() && j != i ==> post[j] == pre[j])
        &&& out1.len() == out0.len() + 1
        &&& out1.last().sock_id == s0.sock_id
        &&& out1.last().segment.flags == (tcpflags::FIN | tcpflags::ACK)
        &&& out1.last().segment.seq == s0.send_param.next
        &&& out1.last().segment.ack == s0.recv_param.next
        &&& out1.last().segment.payload@.len() == 0
        &&& s1.send_param.next == s0.send_param.next + 1
        &&& s1.send_param.unacked_seq == s0.send_param.unacked_seq
        &&& s1.send_param.window == s0.send_param.window
        &&& s1.recv_param == s0.recv_param
        &&& s1.recv_buffer@ == s0.recv_buffer@
        &&& s1.sock_id == s0.sock_id
        &&& s1.connection_queue@ == s0.connection_queue@
        &&& s1.listening_socket == s0.listening_socket
        &&& s1.retransmission_queue@.len() == s0.retransmission_queue@.len() + 1
        &&& s1.retransmission_queue@.last().segment.flags == (tcpflags::FIN | tcpflags::ACK)
        &&& s1.retransmission_queue@.last().segment.seq == s0.send_param.next
        &&& s1.retransmission_queue@.last().latest_transmission_time == now
        &&& s1.retransmission_queue@.last().transmission_count == 1
        &&& (s0.status == TcpStatus::Established ==> s1.status == TcpStatus::FinWait1 && outcome
            == CloseOutcome::AwaitClose)
        &&& (s0.status == TcpStatus::CloseWait ==> s1.status == TcpStatus::LastAck && outcome
            == CloseOutcome::AwaitClose)
        &&& (s0.status != TcpStatus::Established && s0.status != TcpStatus::CloseWait
            ==> s1.status == s0.status && outcome == CloseOutcome::Silent)
    })
}

/// How one timer pass may change a connection: only the send window (never
/// shrinking) and the retransmission queue (never growing, every surviving
/// entry derived from a stored one).
pub open spec fn timer_rel(s0: Socket, s1: Socket) -> bool {
    &&& s1.sock_id == s0.sock_id
    &&& s1.status == s0.status
    &&& s1.recv_param == s0.recv_param
    &&& s1.recv_buffer@ == s0.recv_buffer@
    &&& s1.connection_queue@ == s0.connection_queue@
    &&& s1.listening_socket == s0.listening_socket
    &&& s1.send_param.unacked_seq == s0.send_param.unacked_seq
    &&& s1.send_param.next == s0.send_param.next
    &&& s1.send_param.initial_seq == s0.send_param.initial_seq
    &&& s1.send_param.window >= s0.send_param.window
    &&& s1.retransmission_queue@.len() <= s0.retransmission_queue@.len()
    &&& (forall|j: int|
        0 <= j < s1.retransmission_queue@.len() ==> entry_from(
            #[trigger] s1.retransmission_queue@[j],
            s0.retransmission_queue@,
        ))
}

/// A retransmitted segment put on the wire by the timer belongs to the
/// connection it names, under an entry whose transmission count was below
/// the cap.
pub open spec fn timer_out_ok(o: Outgoing, pre: Seq<Socket>) -> bool {
    exists|i: int|
        0 <= i < pre.len() && (#[trigger] pre[i]).sock_id == o.sock_id && retransmission_of(
            o,
            pre[i].retransmission_queue@,
        )
}

/// The segment value that a well-formed header of `b` decodes to (the
/// field-level contract of `parse_tcp_segment`).
pub open spec fn seg_decodes_from(sg: Segment, b: Seq<u8>) -> bool {
    &&& sg.src_port as int == crate::parse::be16_at(b, 0)
    &&& sg.dst_port as int == crate::parse::be16_at(b, 2)
    &&& sg.seq as int == crate::parse::be32_at(b, 4)
    &&& sg.ack as int == crate::parse::be32_at(b, 8)
    &&& sg.flags == b[13]
    &&& sg.window as int == crate::parse::be16_at(b, 14)
    &&& sg.payload@ == crate::parse::payload_of(b)
}

/// The four-tuple of the connection a listener spawns for an inbound SYN:
/// the listener's local endpoint, the packet's source as remote endpoint.
pub open spec fn spec_child_sock_id(listener: SockID, remote_addr: u32, seg: Segment) -> SockID {
    SockID {
        local_addr: listener.local_addr,
        remote_addr,
        local_port: listener.local_port,
        remote_port: seg.src_port,
    }
}

/// Replacing one connection by another with the same four-tuple, all other
/// registry entries untouched, keeps the registry well formed; entries keyed
/// differently are untouched.
pub proof fn lemma_registry_update_frame(pre: TCP, post: TCP, i: int)
    requires
        pre.wf(),
        0 <= i < pre.sockets@.len(),
        post.sockets@.len() == pre.sockets@.len(),
        forall|j: int|
            0 <= j < pre.sockets@.len() && j != i ==> post.sockets@[j] == pre.sockets@[j],
        post.sockets@[i].wf(),
        post.sockets@[i].sock_id == pre.sockets@[i].sock_id,
    ensures
        post.wf(),
        forall|j: int|
            0 <= j < pre.sockets@.len() && pre.sockets@[j].sock_id != pre.sockets@[i].sock_id
                ==> post.sockets@[j] == pre.sockets@[j],
{
    assert forall|a: int| 0 <= a < post.sockets@.len() implies (#[trigger] post.sockets@[a]).wf() by {
        if a != i {
            assert(post.sockets@[a] == pre.sockets@[a]);
            assert(pre.sockets@[a].wf());
        }
    }
    assert forall|a: int, b: int|
        0 <= a < b < post.sockets@.len() implies post.sockets@[a].sock_id
        != post.sockets@[b].sock_id by {
        assert(pre.sockets@[a].sock_id != pre.sockets@[b].sock_id);
        if a != i {
            assert(post.sockets@[a] == pre.sockets@[a]);
        }
        if b != i {
            assert(post.sockets@[b] == pre.sockets@[b]);
        }
    }
    assert forall|j: int|
        0 <= j < pre.sockets@.len() && pre.sockets@[j].sock_id != pre.sockets@[i].sock_id implies
        post.sockets@[j] == pre.sockets@[j] by {
        assert(j != i);
    }
}

/// The process-wide endpoint: the registry of connections and the single-cell
/// event mailbox. The surrounding program serialises all access behind one
/// exclusive lock and parks waiters on a condition variable; every operation
/// here is one critical section.
pub struct TCP {
    pub sockets: Vec<Socket>,
    pub event: Option<TCPEvent>,
}

impl TCP {
    /// Registry well-formedness: every connection is well formed and the
    /// four-tuples are pairwise distinct.
    pub open spec fn wf(self) -> bool {
        &&& forall|i: int| 0 <= i < self.sockets@.len() ==> (#[trigger] self.sockets@[i]).wf()
        &&& forall|i: int, j: int|
            0 <= i < j < self.sockets@.len() ==> self.sockets@[i].sock_id
                != self.sockets@[j].sock_id
    }

    pub open spec fn spec_has_socket(self, id: SockID) -> bool {
        exists|i: int| 0 <= i < self.sockets@.len() && (#[trigger] self.sockets@[i]).sock_id == id
    }

    pub fn new() -> (r: TCP)
        ensures
            r.wf(),
            r.sockets@.len() == 0,
            r.event is None,
    {
        TCP { sockets: Vec::new(), event: None }
    }

    /// Index of the connection keyed by `id`, if registered.
    pub fn find_socket(&self, id: SockID) -> (r: Option<usize>)
        ensures
            match r {
                Some(i) => i < self.sockets@.len() && self.sockets@[i as int].sock_id == id,
                None => !self.spec_has_socket(id),
            },
    {
        let mut i: usize = 0;
        while i < self.sockets.len()
            invariant
                i <= self.sockets@.len(),
                forall|j: int| 0 <= j < i ==> (#[trigger] self.sockets@[j]).sock_id != id,
            decreases self.sockets@.len() - i,
        {
            if self.sockets[i].sock_id == id {
                return Some(i);
            }
            i += 1;
        }
        None
    }

    /// Registers a connection, replacing any present entry with the same
    /// four-tuple (the registry is a map keyed by SockID).
    fn insert_socket(&mut self, s: Socket)
        requires
            old(self).wf(),
            s.wf(),
        ensures
            final(self).wf(),
            final(self).event == old(self).event,
            final(self).spec_has_socket(s.sock_id),
            old(self).spec_has_socket(s.sock_id) ==> exists|i: int|
                0 <= i < old(self).sockets@.len() && (#[trigger] old(self).sockets@[i]).sock_id
                    == s.sock_id && final(self).sockets@ == old(self).sockets@.update(i, s),
            !old(self).spec_has_socket(s.sock_id) ==> final(self).sockets@ == old(self).sockets@.push(s),
    {
        let r = self.find_socket(s.sock_id);
        match r {
            Some(i) => {
                let ghost oldseq = self.sockets@;
                self.sockets.set(i, s);
                proof {
                    assert forall|a: int, b: int|
                        0 <= a < b < self.sockets@.len() implies self.sockets@[a].sock_id
                        != self.sockets@[b].sock_id by {
                        assert(oldseq[a].sock_id != oldseq[b].sock_id);
                    }
                    assert(self.sockets@[i as int].sock_id == s.sock_id);
                }
            },
            None => {
                self.sockets.push(s);
                proof {
                    assert(self.sockets@[self.sockets@.len() - 1].sock_id == s.sock_id);
                }
            },
        }
    }

    /// Removes the connection keyed by `id`; reports whether one was there.
    pub fn remove_sock(&mut self, id: SockID) -> (r: bool)
        requires
            old(self).wf(),
        ensures
            final(self).wf(),
            final(self).event == old(self).event,
            r == old(self).spec_has_socket(id),
            !final(self).spec_has_socket(id),
            !r ==> *final(self) == *old(self),
            r ==> exists|i: int|
                0 <= i < old(self).sockets@.len() && (#[trigger] old(self).sockets@[i]).sock_id
                    == id && final(self).sockets@ == old(self).sockets@.remove(i),
    {
        let r = self.find_socket(id);
        match r {
            Some(i) => {
                let ghost oldseq = self.sockets@;
                let _ = self.sockets.remove(i);
                proof {
                    assert(self.sockets@ =~= oldseq.remove(i as int));
                    assert forall|a: int, b: int|
                        0 <= a < b < self.sockets@.len() implies self.sockets@[a].sock_id
                        != self.sockets@[b].sock_id by {
                        let a0 = if a < i { a } else { a + 1 };
                        let b0 = if b < i { b } else { b + 1 };
                        assert(self.sockets@[a] == oldseq[a0]);
                        assert(self.sockets@[b] == oldseq[b0]);
                        assert(oldseq[a0].sock_id != oldseq[b0].sock_id);
                    }
                    assert forall|j: int|
                        0 <= j < self.sockets@.len() implies (#[trigger] self.sockets@[j]).sock_id
                        != id by {
                        let j0 = if j < i { j } else { j + 1 };
                        assert(self.sockets@[j] == oldseq[j0]);
                    }
                }
                true
            },
            None => false,
        }
    }

    /// Publishes an event into the single-cell mailbox; a pending event is
    /// overwritten (the cell has capacity one). The surrounding program
    /// wakes all parked waiters after each publication.
    pub fn publish_event(&mut self, sock_id: SockID, kind: TCPEventKind)
        ensures
            final(self).event == Some(TCPEvent { sock_id, kind }),
            final(self).sockets == old(self).sockets,
    {
        self.event = Some(TCPEvent::new(sock_id, kind));
    }

    /// The decision step of a parked waiter: if the pending event matches
    /// both the connection and the kind, consume it and report success;
    /// otherwise leave it for its addressee and go back to sleep.
    pub fn try_consume_event(&mut self, sock_id: SockID, kind: TCPEventKind) -> (r: bool)
        ensures
            final(self).sockets == old(self).sockets,
            r == (old(self).event == Some(TCPEvent { sock_id, kind })),
            r ==> final(self).event is None,
            !r ==> final(self).event == old(self).event,
    {
        match self.event {
            Some(ev) => {
                if ev.sock_id == sock_id && ev.kind == kind {
                    self.event = None;
                    true
                } else {
                    false
                }
            },
            None => false,
        }
    }

    /// Sets the mailbox to the most recently announced event of this call,
    /// if any was announced past `from`; each announcement overwrote the
    /// previous one, so only the last is pending.
    fn sync_event_slot(&mut self, events: &Vec<TCPEvent>, from: usize)
        requires
            from <= events@.len(),
        ensures
            final(self).sockets == old(self).sockets,
            from < events@.len() ==> final(self).event == Some(events@.last()),
            from == events@.len() ==> final(self).event == old(self).event,
    {
        if from < events.len() {
            let ev = events[events.len() - 1];
            self.event = Some(ev);
        }
    }

    /// Handler for a segment arriving at an ESTABLISHED connection:
    /// cumulative-ACK accounting with queue pruning, reassembly of any
    /// payload, and the passive-close transition on FIN (reply ACK, go to
    /// CLOSE-WAIT, announce `DataArrived` so a blocked receive observes the
    /// end of the stream).
    ///
    /// An acknowledgement is accepted only when `unacked_seq < ack <= next`;
    /// one beyond `next` drops the segment, and a segment without the ACK
    /// flag goes no further. A FIN that lies below the highest buffered
    /// sequence is ignored (accepting it would tear a hole into the
    /// already-reassembled stream).
    pub fn established_handler(
        &mut self,
        sock_id: SockID,
        seg: &Segment,
        now: u64,
        events: &mut Vec<TCPEvent>,
        out: &mut Vec<Outgoing>,
    ) -> (r: Result<(), TcpError>)
        requires
            old(self).wf(),
        ensures
            final(self).wf(),
            r matches Err(e) ==> e == TcpError::NoSuchSocket(sock_id) && !old(self).spec_has_socket(sock_id) && *final(self) == *old(self) && final(events)@ == old(events)@ && final(out)@ == old(out)@,
            r is Ok ==> old(self).spec_has_socket(sock_id),
            final(self).sockets@.len() == old(self).sockets@.len(),
            forall|j: int|
                0 <= j < old(self).sockets@.len() && old(self).sockets@[j].sock_id != sock_id
                    ==> final(self).sockets@[j] == old(self).sockets@[j],
            final(events)@.len() >= old(events)@.len(),
            final(events)@.subrange(0, old(events)@.len() as int) == old(events)@,
            forall|j: int|
                old(events)@.len() <= j < final(events)@.len() ==> (#[trigger] final(
                    events
                )@[j]).sock_id == sock_id && (final(events)@[j].kind == TCPEventKind::Acked
                    || final(events)@[j].kind == TCPEventKind::DataArrived),
            final(out)@.len() >= old(out)@.len(),
            final(out)@.subrange(0, old(out)@.len() as int) == old(out)@,
            forall|j: int|
                old(out)@.len() <= j < final(out)@.len() ==> (#[trigger] final(out)@[j]).sock_id
                    == sock_id && final(out)@[j].segment.flags == tcpflags::ACK
                    && final(out)@[j].segment.payload@.len() == 0,
            final(events)@.len() > old(events)@.len() ==> final(self).event == Some(
                final(events)@.last(),
            ),
            final(events)@.len() == old(events)@.len() ==> final(self).event == old(self).event,
            r is Ok ==> exists|i: int|
                0 <= i < old(self).sockets@.len() && (#[trigger] old(self).sockets@[i]).sock_id
                    == sock_id && established_step(
                    old(self).sockets@[i],
                    final(self).sockets@[i],
                    *seg,
                    old(events)@,
                    final(events)@,
                    old(out)@,
                    final(out)@,
                ),
    {
        let pre_len = events.len();
        let ghost pre_ev = events@;
        let ghost pre_out = out@;
        let i = match self.find_socket(sock_id) {
            None => {
                return Err(TcpError::NoSuchSocket(sock_id));
            },
            Some(i) => i,
        };
        let ghost s0 = self.sockets@[i as int];
        if seg.flags & tcpflags::ACK == 0 {
            return Ok(());
        }
        let unacked = self.sockets[i].send_param.unacked_seq;
        let next = self.sockets[i].send_param.next;
        if unacked < seg.ack && seg.ack <= next {
            self.sockets[i].send_param.unacked_seq = seg.ack;
            self.sockets[i].prune_acked(events);
        } else if next < seg.ack {
            proof {
                lemma_registry_update_frame(*old(self), *self, i as int);
            }
            return Ok(());
        }
        let ghost aft_ack_ev = events@;
        if seg.payload.len() > 0 {
            let (ackseg, arrived) = self.sockets[i].process_payload(seg.seq, &seg.payload, now);
            match ackseg {
                Some(a) => {
                    out.push(Outgoing { sock_id, segment: a });
                },
                None => {},
            }
            if arrived {
                events.push(TCPEvent::new(sock_id, TCPEventKind::DataArrived));
            }
        }
        if seg.flags & tcpflags::FIN != 0 && seg.seq < u32::MAX && seg.seq
            >= self.sockets[i].recv_param.tail {
            self.sockets[i].recv_param.next = seg.seq + 1;
            self.sockets[i].recv_param.tail = seg.seq + 1;
            let sn = self.sockets[i].send_param.next;
            let rn = self.sockets[i].recv_param.next;
            proof {
                tcpflags::lemma_flag_bits();
            }
            let a = self.sockets[i].send_tcp_packet(sn, rn, tcpflags::ACK, Vec::new(), now);
            out.push(Outgoing { sock_id, segment: a });
            self.sockets[i].status = TcpStatus::CloseWait;
            events.push(TCPEvent::new(sock_id, TCPEventKind::DataArrived));
        }
        proof {
            if ack_acceptable(s0, seg.ack) {
                let pr = spec_prune(
                    s0.retransmission_queue@,
                    seg.ack,
                    s0.send_param.window as int,
                );
                crate::socket::lemma_spec_prune_nonneg(
                    s0.retransmission_queue@,
                    seg.ack,
                    s0.send_param.window as int,
                );
                assert(aft_ack_ev =~= pre_ev + Seq::new(
                    pr.2 as nat,
                    |x: int| TCPEvent { sock_id: s0.sock_id, kind: TCPEventKind::Acked },
                ));
                assert(aft_ack_ev.len() == pre_ev.len() + pr.2);
                assert(events@.subrange(0, aft_ack_ev.len() as int) =~= aft_ack_ev);
                assert forall|x: int| 0 <= x < pr.2 implies #[trigger] events@[pre_ev.len()
                    + x] == (TCPEvent { sock_id: s0.sock_id, kind: TCPEventKind::Acked }) by {
                    assert(events@.subrange(0, aft_ack_ev.len() as int)[pre_ev.len() + x]
                        == aft_ack_ev[pre_ev.len() + x]);
                }
                assert(events@.subrange(pre_ev.len() as int, pre_ev.len() + pr.2) =~= Seq::new(
                    pr.2 as nat,
                    |x: int| TCPEvent { sock_id: s0.sock_id, kind: TCPEventKind::Acked },
                ));
            }
        }
        self.sync_event_slot(events, pre_len);
        proof {
            lemma_registry_update_frame(*old(self), *self, i as int);
        }
        Ok(())
    }

    /// Handler for a segment arriving at a FIN-WAIT-1 or FIN-WAIT-2
    /// connection (the active close): ACK accounting and reassembly as in
    /// ESTABLISHED, the FIN-WAIT-1 to FIN-WAIT-2 transition once this side's
    /// FIN is acknowledged, and on the peer's FIN a bare ACK plus the
    /// `ConnectionClosed` announcement.
    pub fn finwait_handler(
        &mut self,
        sock_id: SockID,
        seg: &Segment,
        now: u64,
        events: &mut Vec<TCPEvent>,
        out: &mut Vec<Outgoing>,
    ) -> (r: Result<(), TcpError>)
        requires
            old(self).wf(),
        ensures
            final(self).wf(),
            r matches Err(e) ==> e == TcpError::NoSuchSocket(sock_id) && !old(self).spec_has_socket(sock_id) && *final(self) == *old(self) && final(events)@ == old(events)@ && final(out)@ == old(out)@,
            r is Ok ==> old(self).spec_has_socket(sock_id),
            final(self).sockets@.len() == old(self).sockets@.len(),
            forall|j: int|
                0 <= j < old(self).sockets@.len() && old(self).sockets@[j].sock_id != sock_id
                    ==> final(self).sockets@[j] == old(self).sockets@[j],
            final(events)@.len() >= old(events)@.len(),
            final(events)@.subrange(0, old(events)@.len() as int) == old(events)@,
            forall|j: int|
                old(events)@.len() <= j < final(events)@.len() ==> (#[trigger] final(
                    events
                )@[j]).sock_id == sock_id && (final(events)@[j].kind == TCPEventKind::Acked
                    || final(events)@[j].kind == TCPEventKind::DataArrived || final(events)@[j].kind == TCPEventKind::ConnectionClosed),
            final(out)@.len() >= old(out)@.len(),
            final(out)@.subrange(0, old(out)@.len() as int) == old(out)@,
            forall|j: int|
                old(out)@.len() <= j < final(out)@.len() ==> (#[trigger] final(out)@[j]).sock_id
                    == sock_id && final(out)@[j].segment.flags == tcpflags::ACK
                    && final(out)@[j].segment.payload@.len() == 0,
            final(events)@.len() > old(events)@.len() ==> final(self).event == Some(
                final(events)@.last(),
            ),
            final(events)@.len() == old(events)@.len() ==> final(self).event == old(self).event,
            r is Ok ==> exists|i: int|
                0 <= i < old(self).sockets@.len() && (#[trigger] old(self).sockets@[i]).sock_id
                    == sock_id && finwait_step(
                    old(self).sockets@[i],
                    final(self).sockets@[i],
                    *seg,
                    old(events)@,
                    final(events)@,
                    old(out)@,
                    final(out)@,
                ),
    {
        let pre_len = events.len();
        let ghost pre_ev = events@;
        let i = match self.find_socket(sock_id) {
            None => {
                return Err(TcpError::NoSuchSocket(sock_id));
            },
            Some(i) => i,
        };
        let ghost s0 = self.sockets@[i as int];
        if seg.flags & tcpflags::ACK == 0 {
            return Ok(());
        }
        let unacked = self.sockets[i].send_param.unacked_seq;
        let next = self.sockets[i].send_param.next;
        if unacked < seg.ack && seg.ack <= next {
            self.sockets[i].send_param.unacked_seq = seg.ack;
            self.sockets[i].prune_acked(events);
        } else if next < seg.ack {
            proof {
                lemma_registry_update_frame(*old(self), *self, i as int);
            }
            return Ok(());
        }
        let ghost aft_ack_ev = events@;
        if seg.payload.len() > 0 {
            let (ackseg, arrived) = self.sockets[i].process_payload(seg.seq, &seg.payload, now);
            match ackseg {
                Some(a) => {
                    out.push(Outgoing { sock_id, segment: a });
                },
                None => {},
            }
            if arrived {
                events.push(TCPEvent::new(sock_id, TCPEventKind::DataArrived));
            }
        }
        if self.sockets[i].status == TcpStatus::FinWait1 && self.sockets[i].send_param.next
            == self.sockets[i].send_param.unacked_seq {
            self.sockets[i].status = TcpStatus::FinWait2;
        }
        if seg.flags & tcpflags::FIN != 0 && self.sockets[i].recv_param.next < u32::MAX {
            let rn = self.sockets[i].recv_param.next + 1;
            self.sockets[i].recv_param.next = rn;
            if self.sockets[i].recv_param.tail < rn {
                self.sockets[i].recv_param.tail = rn;
            }
            let sn = self.sockets[i].send_param.next;
            proof {
                tcpflags::lemma_flag_bits();
            }
            let a = self.sockets[i].send_tcp_packet(sn, rn, tcpflags::ACK, Vec::new(), now);
            out.push(Outgoing { sock_id, segment: a });
            events.push(TCPEvent::new(sock_id, TCPEventKind::ConnectionClosed));
        }
        proof {
            if ack_acceptable(s0, seg.ack) {
                let pr = spec_prune(
                    s0.retransmission_queue@,
                    seg.ack,
                    s0.send_param.window as int,
                );
                crate::socket::lemma_spec_prune_nonneg(
                    s0.retransmission_queue@,
                    seg.ack,
                    s0.send_param.window as int,
                );
                assert(aft_ack_ev =~= pre_ev + Seq::new(
                    pr.2 as nat,
                    |x: int| TCPEvent { sock_id: s0.sock_id, kind: TCPEventKind::Acked },
                ));
                assert(aft_ack_ev.len() == pre_ev.len() + pr.2);
                assert(events@.subrange(0, aft_ack_ev.len() as int) =~= aft_ack_ev);
                assert forall|x: int| 0 <= x < pr.2 implies #[trigger] events@[pre_ev.len()
                    + x] == (TCPEvent { sock_id: s0.sock_id, kind: TCPEventKind::Acked }) by {
                    assert(events@.subrange(0, aft_ack_ev.len() as int)[pre_ev.len() + x]
                        == aft_ack_ev[pre_ev.len() + x]);
                }
                assert(events@.subrange(pre_ev.len() as int, pre_ev.len() + pr.2) =~= Seq::new(
                    pr.2 as nat,
                    |x: int| TCPEvent { sock_id: s0.sock_id, kind: TCPEventKind::Acked },
                ));
            }
        }
        self.sync_event_slot(events, pre_len);
        proof {
            lemma_registry_update_frame(*old(self), *self, i as int);
        }
        Ok(())
    }

    /// Handler for a segment arriving at a CLOSE-WAIT or LAST-ACK
    /// connection: records an acceptable cumulative acknowledgement and
    /// nothing else; the timer scan observes the advanced `unacked_seq`,
    /// prunes the queue and publishes `ConnectionClosed` for LAST-ACK.
    pub fn close_handler(&mut self, sock_id: SockID, seg: &Segment) -> (r: Result<(), TcpError>)
        requires
            old(self).wf(),
        ensures
            final(self).wf(),
            final(self).event == old(self).event,
            r matches Err(e) ==> e == TcpError::NoSuchSocket(sock_id) && !old(self).spec_has_socket(sock_id) && *final(self) == *old(self),
            r is Ok ==> old(self).spec_has_socket(sock_id),
            final(self).sockets@.len() == old(self).sockets@.len(),
            forall|j: int|
                0 <= j < old(self).sockets@.len() && old(self).sockets@[j].sock_id != sock_id
                    ==> final(self).sockets@[j] == old(self).sockets@[j],
            r is Ok ==> exists|i: int|
                0 <= i < old(self).sockets@.len() && (#[trigger] old(self).sockets@[i]).sock_id
                    == sock_id && close_wait_step(
                    old(self).sockets@[i],
                    final(self).sockets@[i],
                    *seg,
                ),
    {
        let i = match self.find_socket(sock_id) {
            None => {
                return Err(TcpError::NoSuchSocket(sock_id));
            },
            Some(i) => i,
        };
        if seg.flags & tcpflags::ACK == 0 {
            return Ok(());
        }
        let unacked = self.sockets[i].send_param.unacked_seq;
        let next = self.sockets[i].send_param.next;
        if unacked < seg.ack && seg.ack <= next {
            self.sockets[i].send_param.unacked_seq = seg.ack;
        }
        proof {
            lemma_registry_update_frame(*old(self), *self, i as int);
        }
        Ok(())
    }

    /// Handler for a segment arriving at a SYN-SENT connection: a SYN|ACK
    /// whose acknowledgement covers `[unacked_seq, next]` anchors the
    /// receive stream and either completes the handshake (ESTABLISHED, bare
    /// ACK, `ConnectionCompleted`) or, when this side's SYN is not yet
    /// acknowledged, crosses over to SYN-RECEIVED.
    pub fn synsent_handler(
        &mut self,
        sock_id: SockID,
        seg: &Segment,
        now: u64,
        events: &mut Vec<TCPEvent>,
        out: &mut Vec<Outgoing>,
    ) -> (r: Result<(), TcpError>)
        requires
            old(self).wf(),
        ensures
            final(self).wf(),
            r matches Err(e) ==> e == TcpError::NoSuchSocket(sock_id) && !old(self).spec_has_socket(sock_id) && *final(self) == *old(self) && final(events)@ == old(events)@ && final(out)@ == old(out)@,
            r is Ok ==> old(self).spec_has_socket(sock_id),
            final(self).sockets@.len() == old(self).sockets@.len(),
            forall|j: int|
                0 <= j < old(self).sockets@.len() && old(self).sockets@[j].sock_id != sock_id
                    ==> final(self).sockets@[j] == old(self).sockets@[j],
            final(events)@.len() >= old(events)@.len(),
            final(events)@.subrange(0, old(events)@.len() as int) == old(events)@,
            final(events)@.len() > old(events)@.len() ==> final(self).event == Some(
                final(events)@.last(),
            ),
            final(events)@.len() == old(events)@.len() ==> final(self).event == old(self).event,
            final(out)@.len() >= old(out)@.len(),
            final(out)@.subrange(0, old(out)@.len() as int) == old(out)@,
            r is Ok ==> exists|i: int|
                0 <= i < old(self).sockets@.len() && (#[trigger] old(self).sockets@[i]).sock_id
                    == sock_id && synsent_step(
                    old(self).sockets@[i],
                    final(self).sockets@[i],
                    *seg,
                    old(events)@,
                    final(events)@,
                    old(out)@,
                    final(out)@,
                ),
    {
        let pre_len = events.len();
        let i = match self.find_socket(sock_id) {
            None => {
                return Err(TcpError::NoSuchSocket(sock_id));
            },
            Some(i) => i,
        };
        let unacked = self.sockets[i].send_param.unacked_seq;
        let next = self.sockets[i].send_param.next;
        let initial = self.sockets[i].send_param.initial_seq;
        if seg.flags & tcpflags::ACK != 0 && seg.flags & tcpflags::SYN != 0 && unacked <= seg.ack
            && seg.ack <= next && seg.seq < u32::MAX {
            self.sockets[i].recv_param.next = seg.seq + 1;
            self.sockets[i].recv_param.initial_seq = seg.seq;
            self.sockets[i].recv_param.tail = seg.seq + 1;
            self.sockets[i].send_param.unacked_seq = seg.ack;
            self.sockets[i].send_param.window = seg.window;
            proof {
                tcpflags::lemma_flag_bits();
            }
            let sn = self.sockets[i].send_param.next;
            let rn = self.sockets[i].recv_param.next;
            if seg.ack > initial {
                self.sockets[i].status = TcpStatus::Established;
                let a = self.sockets[i].send_tcp_packet(sn, rn, tcpflags::ACK, Vec::new(), now);
                out.push(Outgoing { sock_id, segment: a });
                events.push(TCPEvent::new(sock_id, TCPEventKind::ConnectionCompleted));
            } else {
                self.sockets[i].status = TcpStatus::SynRcvd;
                let a = self.sockets[i].send_tcp_packet(sn, rn, tcpflags::ACK, Vec::new(), now);
                out.push(Outgoing { sock_id, segment: a });
            }
        }
        self.sync_event_slot(events, pre_len);
        proof {
            lemma_registry_update_frame(*old(self), *self, i as int);
        }
        Ok(())
    }

    /// Handler for the acknowledgement that completes the three-way
    /// handshake on a SYN-RECEIVED connection: under the shared acceptance
    /// policy the connection becomes ESTABLISHED, its identifier is pushed
    /// onto the spawning listener's acceptance queue, and
    /// `ConnectionCompleted` is announced on the listener so a parked
    /// `accept` wakes. A segment that fails the policy changes nothing.
    pub fn synrcvd_handler(
        &mut self,
        sock_id: SockID,
        seg: &Segment,
        events: &mut Vec<TCPEvent>,
    ) -> (r: Result<(), TcpError>)
        requires
            old(self).wf(),
        ensures
            final(self).wf(),
            r matches Err(e) ==> e == TcpError::NoSuchSocket(sock_id) && !old(self).spec_has_socket(
                sock_id,
            ) && *final(self) == *old(self) && final(events)@ == old(events)@,
            r is Ok ==> old(self).spec_has_socket(sock_id),
            final(self).sockets@.len() == old(self).sockets@.len(),
            final(events)@.len() >= old(events)@.len(),
            final(events)@.subrange(0, old(events)@.len() as int) == old(events)@,
            final(events)@.len() > old(events)@.len() ==> final(self).event == Some(
                final(events)@.last(),
            ),
            final(events)@.len() == old(events)@.len() ==> final(self).event == old(self).event,
            r is Ok ==> exists|i: int|
                0 <= i < old(self).sockets@.len() && (#[trigger] old(self).sockets@[i]).sock_id
                    == sock_id && synrcvd_step(
                    old(self).sockets@,
                    final(self).sockets@,
                    i,
                    *seg,
                    old(events)@,
                    final(events)@,
                ),
    {
        let pre_len = events.len();
        let i = match self.find_socket(sock_id) {
            None => {
                return Err(TcpError::NoSuchSocket(sock_id));
            },
            Some(i) => i,
        };
        let unacked = self.sockets[i].send_param.unacked_seq;
        let next = self.sockets[i].send_param.next;
        if seg.flags & tcpflags::ACK != 0 && unacked < seg.ack && seg.ack <= next {
            self.sockets[i].send_param.unacked_seq = seg.ack;
            self.sockets[i].status = TcpStatus::Established;
            let ghost mid = *self;
            proof {
                lemma_registry_update_frame(*old(self), mid, i as int);
            }
            let lopt = self.sockets[i].listening_socket;
            match lopt {
                Some(lid) => {
                    match self.find_socket(lid) {
                        Some(li) => {
                            self.sockets[li].connection_queue.push(sock_id);
                            events.push(TCPEvent::new(lid, TCPEventKind::ConnectionCompleted));
                            proof {
                                lemma_registry_update_frame(mid, *self, li as int);
                            }
                        },
                        None => {},
                    }
                },
                None => {},
            }
        }
        self.sync_event_slot(events, pre_len);
        Ok(())
    }

    /// Handler for a SYN arriving at a listening socket, with the child's
    /// initial sequence supplied by the caller: spawns the SYN-RECEIVED
    /// connection keyed by the packet's source, anchors its receive stream
    /// at the SYN's sequence (which consumes one sequence number), records
    /// the peer's advertised window, replies SYN|ACK and registers the
    /// child with a back-reference to this listener. A segment carrying ACK,
    /// or lacking SYN, is dropped.
    pub fn listen_handler_with(
        &mut self,
        listening_socket_id: SockID,
        seg: &Segment,
        remote_addr: u32,
        iss: u32,
        now: u64,
        out: &mut Vec<Outgoing>,
    ) -> (r: Result<(), TcpError>)
        requires
            old(self).wf(),
            1 <= iss < 0x8000_0000,
        ensures
            final(self).wf(),
            final(self).event == old(self).event,
            final(out)@.len() >= old(out)@.len(),
            final(out)@.subrange(0, old(out)@.len() as int) == old(out)@,
            seg.flags & tcpflags::ACK != 0 ==> r is Ok && *final(self) == *old(self) && final(out)@ == old(out)@,
            seg.flags & tcpflags::ACK == 0 && !old(self).spec_has_socket(listening_socket_id)
                ==> r == Err::<(), TcpError>(TcpError::NoSuchSocket(listening_socket_id))
                && *final(self) == *old(self) && final(out)@ == old(out)@,
            seg.flags & tcpflags::ACK == 0 && old(self).spec_has_socket(listening_socket_id)
                && seg.flags & tcpflags::SYN == 0 ==> r is Ok && *final(self) == *old(self)
                && final(out)@ == old(out)@,
            seg.flags & tcpflags::ACK == 0 && old(self).spec_has_socket(listening_socket_id)
                && seg.flags & tcpflags::SYN != 0 && seg.seq == u32::MAX ==> r is Ok && *final(self) == *old(self) && final(out)@ == old(out)@,
            (seg.flags & tcpflags::ACK == 0 && old(self).spec_has_socket(listening_socket_id)
                && seg.flags & tcpflags::SYN != 0 && seg.seq < u32::MAX) ==> {
                let child_id = spec_child_sock_id(listening_socket_id, remote_addr, *seg);
                &&& r is Ok
                &&& final(out)@.len() == old(out)@.len() + 1
                &&& final(out)@.last().sock_id == child_id
                &&& final(out)@.last().segment.flags == (tcpflags::SYN | tcpflags::ACK)
                &&& final(out)@.last().segment.seq == iss
                &&& final(out)@.last().segment.ack == seg.seq + 1
                &&& final(out)@.last().segment.src_port == listening_socket_id.local_port
                &&& final(out)@.last().segment.dst_port == seg.src_port
                &&& final(out)@.last().segment.window == SOCKET_BUFFER_SIZE as u16
                &&& final(out)@.last().segment.payload@.len() == 0
                &&& final(self).spec_has_socket(child_id)
                &&& exists|i: int|
                    0 <= i < final(self).sockets@.len() && (#[trigger] final(self).sockets@[i]).sock_id == child_id && fresh_syn_rcvd(
                        final(self).sockets@[i],
                        listening_socket_id,
                        remote_addr,
                        *seg,
                        iss,
                        now,
                    )
                &&& (!old(self).spec_has_socket(child_id) ==> final(self).sockets@.len() == old(self).sockets@.len() + 1 && final(self).sockets@.subrange(
                    0,
                    old(self).sockets@.len() as int,
                ) == old(self).sockets@)
                &&& (old(self).spec_has_socket(child_id) ==> final(self).sockets@.len() == old(self).sockets@.len())
            },
    {
        if seg.flags & tcpflags::ACK != 0 {
            return Ok(());
        }
        if self.find_socket(listening_socket_id).is_none() {
            return Err(TcpError::NoSuchSocket(listening_socket_id));
        }
        if seg.flags & tcpflags::SYN == 0 {
            return Ok(());
        }
        if seg.seq == u32::MAX {
            return Ok(());
        }
        let mut child = Socket::new(
            listening_socket_id.local_addr,
            remote_addr,
            listening_socket_id.local_port,
            seg.src_port,
            TcpStatus::SynRcvd,
        );
        child.recv_param.next = seg.seq + 1;
        child.recv_param.initial_seq = seg.seq;
        child.recv_param.tail = seg.seq + 1;
        child.send_param.initial_seq = iss;
        child.send_param.window = seg.window;
        proof {
            tcpflags::lemma_flag_bits();
        }
        let synack = child.send_tcp_packet(
            iss,
            seg.seq + 1,
            tcpflags::SYN | tcpflags::ACK,
            Vec::new(),
            now,
        );
        child.send_param.next = iss + 1;
        child.send_param.unacked_seq = iss;
        child.listening_socket = Some(listening_socket_id);
        let child_id = child.get_sock_id();
        out.push(Outgoing { sock_id: child_id, segment: synack });
        let ghost snew = child;
        self.insert_socket(child);
        proof {
            assert(fresh_syn_rcvd(snew, listening_socket_id, remote_addr, *seg, iss, now));
            if old(self).spec_has_socket(child_id) {
                let i = choose|i: int|
                    0 <= i < old(self).sockets@.len() && (#[trigger] old(self).sockets@[i]).sock_id
                        == child_id && self.sockets@ == old(self).sockets@.update(i, snew);
                assert(self.sockets@[i].sock_id == child_id);
                assert(fresh_syn_rcvd(
                    self.sockets@[i],
                    listening_socket_id,
                    remote_addr,
                    *seg,
                    iss,
                    now,
                ));
            } else {
                assert(self.sockets@[self.sockets@.len() - 1] == snew);
                assert(self.sockets@.subrange(0, old(self).sockets@.len() as int) =~= old(self).sockets@);
            }
        }
        Ok(())
    }

    /// Handler for a SYN arriving at a listening socket: as
    /// `listen_handler_with`, with the child's initial sequence drawn at
    /// random from `[1, 2^31)`.
    pub fn listen_handler(
        &mut self,
        listening_socket_id: SockID,
        seg: &Segment,
        remote_addr: u32,
        now: u64,
        out: &mut Vec<Outgoing>,
    ) -> (r: Result<(), TcpError>)
        requires
            old(self).wf(),
        ensures
            final(self).wf(),
            final(self).event == old(self).event,
            final(out)@.len() >= old(out)@.len(),
            final(out)@.subrange(0, old(out)@.len() as int) == old(out)@,
            seg.flags & tcpflags::ACK != 0 ==> r is Ok && *final(self) == *old(self) && final(out)@ == old(out)@,
            seg.flags & tcpflags::ACK == 0 && !old(self).spec_has_socket(listening_socket_id)
                ==> r == Err::<(), TcpError>(TcpError::NoSuchSocket(listening_socket_id))
                && *final(self) == *old(self) && final(out)@ == old(out)@,
            seg.flags & tcpflags::ACK == 0 && old(self).spec_has_socket(listening_socket_id)
                && seg.flags & tcpflags::SYN == 0 ==> r is Ok && *final(self) == *old(self)
                && final(out)@ == old(out)@,
            seg.flags & tcpflags::ACK == 0 && old(self).spec_has_socket(listening_socket_id)
                && seg.flags & tcpflags::SYN != 0 && seg.seq == u32::MAX ==> r is Ok && *final(self) == *old(self) && final(out)@ == old(out)@,
            (seg.flags & tcpflags::ACK == 0 && old(self).spec_has_socket(listening_socket_id)
                && seg.flags & tcpflags::SYN != 0 && seg.seq < u32::MAX) ==> {
                let child_id = spec_child_sock_id(listening_socket_id, remote_addr, *seg);
                &&& r is Ok
                &&& final(out)@.len() == old(out)@.len() + 1
                &&& final(out)@.last().sock_id == child_id
                &&& final(out)@.last().segment.flags == (tcpflags::SYN | tcpflags::ACK)
                &&& final(out)@.last().segment.ack == seg.seq + 1
                &&& final(self).spec_has_socket(child_id)
                &&& exists|i: int|
                    0 <= i < final(self).sockets@.len() && (#[trigger] final(self).sockets@[i]).sock_id == child_id && 1 <= final(self).sockets@[i].send_param.initial_seq < 0x8000_0000 && final(out)@.last().segment.seq == final(self).sockets@[i].send_param.initial_seq
                        && fresh_syn_rcvd(
                        final(self).sockets@[i],
                        listening_socket_id,
                        remote_addr,
                        *seg,
                        final(self).sockets@[i].send_param.initial_seq,
                        now,
                    )
            },
    {
        let iss = random_u32_in(1, 0x8000_0000);
        self.listen_handler_with(listening_socket_id, seg, remote_addr, iss, now, out)
    }

    /// Creates a listening socket bound to the local endpoint and registers
    /// it under the sentinel remote endpoint. No segment is transmitted.
    pub fn listen(&mut self, local_addr: u32, local_port: u16) -> (r: SockID)
        requires
            old(self).wf(),
        ensures
            final(self).wf(),
            final(self).event == old(self).event,
            r == (SockID {
                local_addr,
                remote_addr: UNDETERMINED_IP_ADDR,
                local_port,
                remote_port: UNDETERMINED_PORT,
            }),
            final(self).spec_has_socket(r),
            exists|i: int|
                0 <= i < final(self).sockets@.len() && {
                    let s = #[trigger] final(self).sockets@[i];
                    &&& s.sock_id == r
                    &&& s.status == TcpStatus::Listen
                    &&& s.connection_queue@.len() == 0
                    &&& s.retransmission_queue@.len() == 0
                },
    {
        let socket = Socket::new(
            local_addr,
            UNDETERMINED_IP_ADDR,
            local_port,
            UNDETERMINED_PORT,
            TcpStatus::Listen,
        );
        let sock_id = socket.get_sock_id();
        self.insert_socket(socket);
        sock_id
    }

    /// Draws random ports from the ephemeral range until one is found that
    /// no registered socket uses as its local port; gives up after as many
    /// draws as the range has ports.
    pub fn select_unused_port(&self) -> (r: Result<u16, TcpError>)
        ensures
            r matches Ok(p) ==> PORT_RANGE_START <= p < PORT_RANGE_END && forall|j: int|
                0 <= j < self.sockets@.len() ==> (#[trigger] self.sockets@[j]).sock_id.local_port
                    != p,
            r matches Err(e) ==> e == TcpError::NoAvailablePort,
    {
        let tries: u16 = PORT_RANGE_END - PORT_RANGE_START;
        let mut attempt: u16 = 0;
        while attempt < tries
            invariant
                attempt <= tries,
            decreases tries - attempt,
        {
            let p = random_u16_in(PORT_RANGE_START, PORT_RANGE_END);
            let mut free = true;
            let mut j: usize = 0;
            while j < self.sockets.len()
                invariant
                    j <= self.sockets@.len(),
                    free == (forall|k: int|
                        0 <= k < j ==> (#[trigger] self.sockets@[k]).sock_id.local_port != p),
                decreases self.sockets@.len() - j,
            {
                if self.sockets[j].sock_id.local_port == p {
                    free = false;
                }
                j += 1;
            }
            if free {
                return Ok(p);
            }
            attempt += 1;
        }
        Err(TcpError::NoAvailablePort)
    }

    /// The deterministic core of the active open, taking the chosen local
    /// port and initial sequence as arguments: registers a SYN-SENT
    /// connection whose SYN (one sequence number, queued for retransmission)
    /// is handed back for transmission. The caller then parks on
    /// `ConnectionCompleted` for the returned identifier.
    pub fn connect_with(
        &mut self,
        local_addr: u32,
        remote_addr: u32,
        local_port: u16,
        remote_port: u16,
        iss: u32,
        now: u64,
    ) -> (r: (SockID, Outgoing))
        requires
            old(self).wf(),
            1 <= iss < 0x8000_0000,
        ensures
            final(self).wf(),
            final(self).event == old(self).event,
            r.0 == (SockID { local_addr, remote_addr, local_port, remote_port }),
            r.1.sock_id == r.0,
            r.1.segment.flags == tcpflags::SYN,
            r.1.segment.seq == iss && r.1.segment.ack == 0,
            r.1.segment.src_port == local_port && r.1.segment.dst_port == remote_port,
            r.1.segment.payload@.len() == 0,
            r.1.segment.window == SOCKET_BUFFER_SIZE as u16,
            final(self).spec_has_socket(r.0),
            exists|i: int|
                0 <= i < final(self).sockets@.len() && (#[trigger] final(self).sockets@[i]).sock_id
                    == r.0 && fresh_syn_sent(
                    final(self).sockets@[i],
                    local_addr,
                    remote_addr,
                    local_port,
                    remote_port,
                    iss,
                    now,
                ),
            !old(self).spec_has_socket(r.0) ==> final(self).sockets@.len() == old(self).sockets@.len() + 1 && final(self).sockets@.subrange(
                0,
                old(self).sockets@.len() as int,
            ) == old(self).sockets@,
            old(self).spec_has_socket(r.0) ==> final(self).sockets@.len() == old(self).sockets@.len(),
    {
        let mut socket = Socket::new(
            local_addr,
            remote_addr,
            local_port,
            remote_port,
            TcpStatus::SynSent,
        );
        socket.send_param.initial_seq = iss;
        let seg = socket.send_tcp_packet(iss, 0, tcpflags::SYN, Vec::new(), now);
        socket.send_param.unacked_seq = iss;
        socket.send_param.next = iss + 1;
        let sock_id = socket.get_sock_id();
        let ghost snew = socket;
        proof {
            tcpflags::lemma_flag_bits();
            assert(fresh_syn_sent(snew, local_addr, remote_addr, local_port, remote_port, iss, now));
        }
        self.insert_socket(socket);
        proof {
            if old(self).spec_has_socket(sock_id) {
                let i = choose|i: int|
                    0 <= i < old(self).sockets@.len() && (#[trigger] old(self).sockets@[i]).sock_id
                        == sock_id && self.sockets@ == old(self).sockets@.update(i, snew);
                assert(self.sockets@[i].sock_id == sock_id);
                assert(fresh_syn_sent(
                    self.sockets@[i],
                    local_addr,
                    remote_addr,
                    local_port,
                    remote_port,
                    iss,
                    now,
                ));
            } else {
                assert(self.sockets@[self.sockets@.len() - 1] == snew);
                assert(self.sockets@.subrange(0, old(self).sockets@.len() as int) =~= old(self).sockets@);
            }
        }
        (sock_id, Outgoing { sock_id, segment: seg })
    }

    /// Active open: picks an unused ephemeral port and a random initial
    /// sequence in `[1, 2^31)`, registers the SYN-SENT connection and hands
    /// back its SYN. Fails only when no ephemeral port is free.
    pub fn connect(
        &mut self,
        local_addr: u32,
        remote_addr: u32,
        remote_port: u16,
        now: u64,
    ) -> (r: Result<(SockID, Outgoing), TcpError>)
        requires
            old(self).wf(),
        ensures
            final(self).wf(),
            final(self).event == old(self).event,
            r matches Err(e) ==> e == TcpError::NoAvailablePort && *final(self) == *old(self),
            r matches Ok(p) ==> {
                &&& p.0.local_addr == local_addr && p.0.remote_addr == remote_addr
                &&& p.0.remote_port == remote_port
                &&& PORT_RANGE_START <= p.0.local_port < PORT_RANGE_END
                &&& p.1.sock_id == p.0
                &&& p.1.segment.flags == tcpflags::SYN && p.1.segment.ack == 0
                &&& p.1.segment.src_port == p.0.local_port && p.1.segment.dst_port == remote_port
                &&& p.1.segment.payload@.len() == 0
                &&& p.1.segment.window == SOCKET_BUFFER_SIZE as u16
                &&& !old(self).spec_has_socket(p.0)
                &&& final(self).sockets@.len() == old(self).sockets@.len() + 1
                &&& final(self).sockets@.subrange(0, old(self).sockets@.len() as int) == old(self).sockets@
                &&& exists|i: int|
                    0 <= i < final(self).sockets@.len() && (#[trigger] final(self).sockets@[i]).sock_id == p.0 && 1 <= final(self).sockets@[i].send_param.initial_seq
                        < 0x8000_0000 && p.1.segment.seq == final(self).sockets@[i].send_param.initial_seq && fresh_syn_sent(
                        final(self).sockets@[i],
                        local_addr,
                        remote_addr,
                        p.0.local_port,
                        remote_port,
                        final(self).sockets@[i].send_param.initial_seq,
                        now,
                    )
            },
    {
        let port = match self.select_unused_port() {
            Ok(p) => p,
            Err(e) => {
                return Err(e);
            },
        };
        let iss = random_u32_in(1, 0x8000_0000);
        proof {
            assert forall|i: int| 0 <= i < self.sockets@.len() implies (#[trigger] self.sockets@[i]).sock_id
                != (SockID { local_addr, remote_addr, local_port: port, remote_port }) by {
                assert(self.sockets@[i].sock_id.local_port != port);
            }
        }
        let (id, syn) = self.connect_with(local_addr, remote_addr, port, remote_port, iss, now);
        Ok((id, syn))
    }

    /// Whether the remaining bytes of a transfer fit in the connection's
    /// 32-bit sequence space: the condition `send` requires, for the caller
    /// to test first.
    pub fn can_send(&self, sock_id: SockID, buffer: &Vec<u8>, cursor: usize) -> (r: bool)
        requires
            self.wf(),
            cursor <= buffer@.len(),
        ensures
            r == (forall|i: int|
                0 <= i < self.sockets@.len() && (#[trigger] self.sockets@[i]).sock_id == sock_id
                    ==> self.sockets@[i].send_param.next as int + (buffer@.len() - cursor)
                    <= u32::MAX as int),
    {
        match self.find_socket(sock_id) {
            None => {
                proof {
                    assert forall|i: int|
                        0 <= i < self.sockets@.len() && (#[trigger] self.sockets@[i]).sock_id
                            == sock_id implies self.sockets@[i].send_param.next as int + (
                    buffer@.len() - cursor) <= u32::MAX as int by {
                        assert(self.spec_has_socket(sock_id));
                    }
                }
                true
            },
            Some(i) => {
                let ok = (buffer.len() - cursor) as u64 <= u32::MAX as u64
                    - self.sockets[i].send_param.next as u64;
                proof {
                    if ok {
                        assert forall|j: int|
                            0 <= j < self.sockets@.len() && (#[trigger] self.sockets@[j]).sock_id
                                == sock_id implies self.sockets@[j].send_param.next as int + (
                        buffer@.len() - cursor) <= u32::MAX as int by {
                            if j != i as int {
                                assert(self.sockets@[j].sock_id != self.sockets@[i as int].sock_id);
                            }
                        }
                    }
                }
                ok
            },
        }
    }

    /// Transmits `buffer[cursor..]` as a run of segments, each of size
    /// `min(MSS, window, remaining)`, consuming the send window, advancing
    /// `send_param.next` and queueing every segment for retransmission. The
    /// call returns the new cursor: short of the buffer's end exactly when
    /// the window is exhausted, in which case the caller parks on `Acked`
    /// and calls again (the surrounding program also yields between calls so
    /// the receive worker can drain inbound acknowledgements).
    #[verifier::rlimit(100)]
    #[verifier::spinoff_prover]
    pub fn send(
        &mut self,
        sock_id: SockID,
        buffer: &Vec<u8>,
        cursor: usize,
        now: u64,
        out: &mut Vec<Outgoing>,
    ) -> (r: Result<usize, TcpError>)
        requires
            old(self).wf(),
            cursor <= buffer@.len(),
            forall|i: int|
                0 <= i < old(self).sockets@.len() && (#[trigger] old(self).sockets@[i]).sock_id
                    == sock_id ==> old(self).sockets@[i].send_param.next as int + (buffer@.len()
                    - cursor) <= u32::MAX as int,
        ensures
            final(self).wf(),
            final(self).event == old(self).event,
            final(self).sockets@.len() == old(self).sockets@.len(),
            final(out)@.len() >= old(out)@.len(),
            final(out)@.subrange(0, old(out)@.len() as int) == old(out)@,
            r matches Err(e) ==> e == TcpError::NoSuchSocket(sock_id) && !old(self).spec_has_socket(sock_id) && *final(self) == *old(self) && final(out)@ == old(out)@,
            r matches Ok(nc) ==> cursor <= nc <= buffer@.len() && exists|i: int|
                0 <= i < old(self).sockets@.len() && (#[trigger] old(self).sockets@[i]).sock_id
                    == sock_id && send_step(
                    old(self).sockets@,
                    final(self).sockets@,
                    i,
                    buffer@,
                    cursor as int,
                    nc as int,
                    now,
                    old(out)@,
                    final(out)@,
                ),
    {
        let i = match self.find_socket(sock_id) {
            None => {
                return Err(TcpError::NoSuchSocket(sock_id));
            },
            Some(i) => i,
        };
        let ghost s0 = self.sockets@[i as int];
        let ghost oout = out@;
        let mut c = cursor;
        proof {
            assert(out@.subrange(0, oout.len() as int) =~= oout);
            assert(self.sockets@[i as int].retransmission_queue@ =~= s0.retransmission_queue@);
        }
        while c < buffer.len()
            invariant
                old(self).wf(),
                0 <= i < self.sockets@.len(),
                self.sockets@.len() == old(self).sockets@.len(),
                old(self).sockets@[i as int] == s0,
                s0.sock_id == sock_id,
                s0.wf(),
                cursor <= c <= buffer@.len(),
                s0.send_param.next as int + (buffer@.len() - cursor) <= u32::MAX as int,
                forall|j: int|
                    0 <= j < self.sockets@.len() && j != i ==> self.sockets@[j] == old(self).sockets@[j],
                self.event == old(self).event,
                self.sockets@[i as int].sock_id == s0.sock_id,
                self.sockets@[i as int].status == s0.status,
                self.sockets@[i as int].recv_param == s0.recv_param,
                self.sockets@[i as int].recv_buffer@ == s0.recv_buffer@,
                self.sockets@[i as int].connection_queue@ == s0.connection_queue@,
                self.sockets@[i as int].listening_socket == s0.listening_socket,
                self.sockets@[i as int].send_param.unacked_seq == s0.send_param.unacked_seq,
                self.sockets@[i as int].send_param.initial_seq == s0.send_param.initial_seq,
                self.sockets@[i as int].send_param.next as int == s0.send_param.next + (c
                    - cursor),
                self.sockets@[i as int].send_param.window as int == s0.send_param.window - (c
                    - cursor),
                self.sockets@[i as int].wf(),
                out@.len() >= oout.len(),
                out@.subrange(0, oout.len() as int) == oout,
                out_payload_concat(out@, oout.len() as int, out@.len() as int)
                    == buffer@.subrange(cursor as int, c as int),
                forall|j: int|
                    oout.len() <= j < out@.len() ==> #[trigger] sent_segment_ok(
                        out@,
                        oout.len() as int,
                        j,
                        s0,
                        buffer@,
                        cursor as int,
                    ),
                self.sockets@[i as int].retransmission_queue@.len()
                    == s0.retransmission_queue@.len() + (out@.len() - oout.len()),
                forall|j: int|
                    0 <= j < s0.retransmission_queue@.len() ==> (#[trigger] self.sockets@[
                        i as int
                    ].retransmission_queue@[j]) == s0.retransmission_queue@[j],
                forall|j: int|
                    s0.retransmission_queue@.len() <= j < self.sockets@[
                        i as int
                    ].retransmission_queue@.len() ==> {
                        let e = #[trigger] self.sockets@[i as int].retransmission_queue@[j];
                        let o = out@[oout.len() + (j - s0.retransmission_queue@.len())];
                        &&& seg_matches(e.segment, o.segment)
                        &&& e.latest_transmission_time == now
                        &&& e.transmission_count == 1
                    },
            ensures
                cursor <= c <= buffer@.len(),
                c < buffer@.len() ==> self.sockets@[i as int].send_param.window == 0,
                self.sockets@.len() == old(self).sockets@.len(),
                forall|j: int|
                    0 <= j < self.sockets@.len() && j != i ==> self.sockets@[j] == old(self).sockets@[j],
                self.event == old(self).event,
                self.sockets@[i as int].sock_id == s0.sock_id,
                self.sockets@[i as int].status == s0.status,
                self.sockets@[i as int].recv_param == s0.recv_param,
                self.sockets@[i as int].recv_buffer@ == s0.recv_buffer@,
                self.sockets@[i as int].connection_queue@ == s0.connection_queue@,
                self.sockets@[i as int].listening_socket == s0.listening_socket,
                self.sockets@[i as int].send_param.unacked_seq == s0.send_param.unacked_seq,
                self.sockets@[i as int].send_param.initial_seq == s0.send_param.initial_seq,
                self.sockets@[i as int].send_param.next as int == s0.send_param.next + (c
                    - cursor),
                self.sockets@[i as int].send_param.window as int == s0.send_param.window - (c
                    - cursor),
                self.sockets@[i as int].wf(),
                out@.len() >= oout.len(),
                out@.subrange(0, oout.len() as int) == oout,
                out_payload_concat(out@, oout.len() as int, out@.len() as int)
                    == buffer@.subrange(cursor as int, c as int),
                forall|j: int|
                    oout.len() <= j < out@.len() ==> #[trigger] sent_segment_ok(
                        out@,
                        oout.len() as int,
                        j,
                        s0,
                        buffer@,
                        cursor as int,
                    ),
                self.sockets@[i as int].retransmission_queue@.len()
                    == s0.retransmission_queue@.len() + (out@.len() - oout.len()),
                forall|j: int|
                    0 <= j < s0.retransmission_queue@.len() ==> (#[trigger] self.sockets@[
                        i as int
                    ].retransmission_queue@[j]) == s0.retransmission_queue@[j],
                forall|j: int|
                    s0.retransmission_queue@.len() <= j < self.sockets@[
                        i as int
                    ].retransmission_queue@.len() ==> {
                        let e = #[trigger] self.sockets@[i as int].retransmission_queue@[j];
                        let o = out@[oout.len() + (j - s0.retransmission_queue@.len())];
                        &&& seg_matches(e.segment, o.segment)
                        &&& e.latest_transmission_time == now
                        &&& e.transmission_count == 1
                    },
            decreases buffer@.len() - c + self.sockets@[i as int].send_param.window,
        {
            let window = self.sockets[i].send_param.window as usize;
            let rem = buffer.len() - c;
            let mut size = MSS;
            if window < size {
                size = window;
            }
            if rem < size {
                size = rem;
            }
            if size == 0 {
                break ;
            }
            let ghost pre_out = out@;
            let ghost pre_q = self.sockets@[i as int].retransmission_queue@;
            let payload = copy_range(buffer, c, c + size);
            let sn = self.sockets[i].send_param.next;
            let rn = self.sockets[i].recv_param.next;
            proof {
                tcpflags::lemma_flag_bits();
            }
            let seg = self.sockets[i].send_tcp_packet(sn, rn, tcpflags::ACK, payload, now);
            out.push(Outgoing { sock_id, segment: seg });
            let w = self.sockets[i].send_param.window;
            self.sockets[i].send_param.next = sn + size as u32;
            self.sockets[i].send_param.window = w - size as u16;
            c += size;
            proof {
                let q1 = self.sockets@[i as int].retransmission_queue@;
                assert forall|j: int| 0 <= j < pre_q.len() implies q1[j] == pre_q[j] by {
                    assert(q1.subrange(0, pre_q.len() as int)[j] == q1[j]);
                }
                assert forall|j: int|
                    s0.retransmission_queue@.len() <= j < q1.len() implies {
                    let e = #[trigger] q1[j];
                    let o = out@[oout.len() + (j - s0.retransmission_queue@.len())];
                    &&& seg_matches(e.segment, o.segment)
                    &&& e.latest_transmission_time == now
                    &&& e.transmission_count == 1
                } by {
                    if j < q1.len() - 1 {
                        assert(q1[j] == pre_q[j]);
                        assert(out@[oout.len() + (j - s0.retransmission_queue@.len())]
                            == pre_out[oout.len() + (j - s0.retransmission_queue@.len())]);
                    } else {
                        assert(q1[j] == q1.last());
                        assert(out@[oout.len() + (j - s0.retransmission_queue@.len())]
                            == out@.last());
                    }
                }
                assert(out@.subrange(0, oout.len() as int) =~= oout);
                lemma_concat_agrees(pre_out, out@, oout.len() as int, pre_out.len() as int);
                assert(out_payload_concat(out@, oout.len() as int, out@.len() as int)
                    =~= buffer@.subrange(cursor as int, c as int));
                assert forall|j: int| oout.len() <= j < out@.len() implies #[trigger] sent_segment_ok(
                    out@,
                    oout.len() as int,
                    j,
                    s0,
                    buffer@,
                    cursor as int,
                ) by {
                    lemma_concat_agrees(pre_out, out@, oout.len() as int, j);
                    if j < out@.len() - 1 {
                        assert(out@[j] == pre_out[j]);
                        assert(sent_segment_ok(
                            pre_out,
                            oout.len() as int,
                            j,
                            s0,
                            buffer@,
                            cursor as int,
                        ));
                        assert(out_payload_concat(out@, oout.len() as int, j)
                            == out_payload_concat(pre_out, oout.len() as int, j));
                    } else {
                        assert(out_payload_concat(out@, oout.len() as int, j)
                            == buffer@.subrange(cursor as int, (c - size) as int));
                        assert(out_payload_concat(out@, oout.len() as int, j).len() == c - size
                            - cursor);
                        assert(out@[j].segment.payload@.len() == size);
                    }
                }
            }
        }
        proof {
            lemma_registry_update_frame(*old(self), *self, i as int);
        }
        Ok(c)
    }

    /// Delivers buffered in-order bytes to the user: up to `want` bytes from
    /// the front of the receive buffer, which is shifted left and whose
    /// freed space is credited back to the receive window. With nothing
    /// buffered the outcome is empty data when the peer has finished sending
    /// (CLOSE-WAIT, LAST-ACK or TIME-WAIT), else the advice to park on
    /// `DataArrived` and call again.
    pub fn recv(&mut self, sock_id: SockID, want: usize) -> (r: Result<RecvOutcome, TcpError>)
        requires
            old(self).wf(),
        ensures
            final(self).wf(),
            final(self).event == old(self).event,
            final(self).sockets@.len() == old(self).sockets@.len(),
            r matches Err(e) ==> e == TcpError::NoSuchSocket(sock_id) && !old(self).spec_has_socket(sock_id) && *final(self) == *old(self),
            r is Ok ==> exists|i: int|
                0 <= i < old(self).sockets@.len() && (#[trigger] old(self).sockets@[i]).sock_id
                    == sock_id && recv_step(
                    old(self).sockets@,
                    final(self).sockets@,
                    i,
                    want as int,
                    r->Ok_0,
                ),
    {
        let i = match self.find_socket(sock_id) {
            None => {
                return Err(TcpError::NoSuchSocket(sock_id));
            },
            Some(i) => i,
        };
        let rw = self.sockets[i].recv_param.window as usize;
        let available = SOCKET_BUFFER_SIZE - rw;
        if available == 0 {
            let st = self.sockets[i].status;
            if st == TcpStatus::CloseWait || st == TcpStatus::LastAck || st
                == TcpStatus::TimeWait {
                return Ok(RecvOutcome::Data(Vec::new()));
            }
            return Ok(RecvOutcome::WouldBlock);
        }
        let copy = if want < available {
            want
        } else {
            available
        };
        let data = copy_range(&self.sockets[i].recv_buffer, 0, copy);
        let mut j: usize = 0;
        let ghost b0 = self.sockets@[i as int].recv_buffer@;
        while j < SOCKET_BUFFER_SIZE - copy
            invariant
                0 <= i < self.sockets@.len(),
                copy <= SOCKET_BUFFER_SIZE,
                j <= SOCKET_BUFFER_SIZE - copy,
                self.sockets@.len() == old(self).sockets@.len(),
                forall|k: int|
                    0 <= k < self.sockets@.len() && k != i ==> self.sockets@[k] == old(self).sockets@[k],
                self.event == old(self).event,
                self.sockets@[i as int].recv_buffer@.len() == SOCKET_BUFFER_SIZE,
                b0.len() == SOCKET_BUFFER_SIZE,
                forall|k: int|
                    0 <= k < j ==> self.sockets@[i as int].recv_buffer@[k] == b0[k + copy],
                forall|k: int|
                    j <= k < SOCKET_BUFFER_SIZE ==> self.sockets@[i as int].recv_buffer@[k]
                        == b0[k],
                self.sockets@[i as int].sock_id == old(self).sockets@[i as int].sock_id,
                self.sockets@[i as int].status == old(self).sockets@[i as int].status,
                self.sockets@[i as int].send_param == old(self).sockets@[i as int].send_param,
                self.sockets@[i as int].recv_param == old(self).sockets@[i as int].recv_param,
                self.sockets@[i as int].retransmission_queue@ == old(self).sockets@[
                    i as int
                ].retransmission_queue@,
                self.sockets@[i as int].connection_queue@ == old(self).sockets@[
                    i as int
                ].connection_queue@,
                self.sockets@[i as int].listening_socket == old(self).sockets@[
                    i as int
                ].listening_socket,
            decreases SOCKET_BUFFER_SIZE - copy - j,
        {
            let b = self.sockets[i].recv_buffer[j + copy];
            self.sockets[i].recv_buffer.set(j, b);
            j += 1;
        }
        let w = self.sockets[i].recv_param.window;
        self.sockets[i].recv_param.window = w + copy as u16;
        proof {
            lemma_registry_update_frame(*old(self), *self, i as int);
        }
        Ok(RecvOutcome::Data(data))
    }

    /// Whether a FIN can still be numbered in the connection's sequence
    /// space: the condition `close` requires, for the caller to test first.
    pub fn can_close(&self, sock_id: SockID) -> (r: bool)
        requires
            self.wf(),
        ensures
            r == (forall|i: int|
                0 <= i < self.sockets@.len() && (#[trigger] self.sockets@[i]).sock_id == sock_id
                    ==> self.sockets@[i].send_param.next < u32::MAX),
    {
        match self.find_socket(sock_id) {
            None => {
                proof {
                    assert forall|i: int|
                        0 <= i < self.sockets@.len() && (#[trigger] self.sockets@[i]).sock_id
                            == sock_id implies self.sockets@[i].send_param.next < u32::MAX by {
                        assert(self.spec_has_socket(sock_id));
                    }
                }
                true
            },
            Some(i) => {
                let ok = self.sockets[i].send_param.next < u32::MAX;
                proof {
                    if ok {
                        assert forall|j: int|
                            0 <= j < self.sockets@.len() && (#[trigger] self.sockets@[j]).sock_id
                                == sock_id implies self.sockets@[j].send_param.next < u32::MAX by {
                            if j != i as int {
                                assert(self.sockets@[j].sock_id != self.sockets@[i as int].sock_id);
                            }
                        }
                    }
                }
                ok
            },
        }
    }

    /// Starts the closing handshake. A listener is removed at once, without
    /// a segment. Otherwise a FIN|ACK is transmitted (and queued for
    /// retransmission), consuming one sequence number; ESTABLISHED moves to
    /// FIN-WAIT-1 and CLOSE-WAIT to LAST-ACK, after which the caller parks
    /// on `ConnectionClosed` and then removes the connection; every other
    /// state returns without further effect.
    pub fn close(&mut self, sock_id: SockID, now: u64, out: &mut Vec<Outgoing>) -> (r: Result<
        CloseOutcome,
        TcpError,
    >)
        requires
            old(self).wf(),
            forall|i: int|
                0 <= i < old(self).sockets@.len() && (#[trigger] old(self).sockets@[i]).sock_id
                    == sock_id ==> old(self).sockets@[i].send_param.next < u32::MAX,
        ensures
            final(self).wf(),
            final(self).event == old(self).event,
            final(out)@.len() >= old(out)@.len(),
            final(out)@.subrange(0, old(out)@.len() as int) == old(out)@,
            r matches Err(e) ==> e == TcpError::NoSuchSocket(sock_id) && !old(self).spec_has_socket(sock_id) && *final(self) == *old(self) && final(out)@ == old(out)@,
            r matches Ok(o) ==> exists|i: int|
                0 <= i < old(self).sockets@.len() && (#[trigger] old(self).sockets@[i]).sock_id
                    == sock_id && close_step(
                    old(self).sockets@,
                    final(self).sockets@,
                    i,
                    o,
                    now,
                    old(out)@,
                    final(out)@,
                ),
    {
        let i = match self.find_socket(sock_id) {
            None => {
                return Err(TcpError::NoSuchSocket(sock_id));
            },
            Some(i) => i,
        };
        let st = self.sockets[i].status;
        if st == TcpStatus::Listen {
            let ghost oldseq = self.sockets@;
            let _ = self.sockets.remove(i);
            proof {
                assert(self.sockets@ =~= oldseq.remove(i as int));
                assert forall|a: int, b: int|
                    0 <= a < b < self.sockets@.len() implies self.sockets@[a].sock_id
                    != self.sockets@[b].sock_id by {
                    let a0 = if a < i { a } else { a + 1 };
                    let b0 = if b < i { b } else { b + 1 };
                    assert(self.sockets@[a] == oldseq[a0]);
                    assert(self.sockets@[b] == oldseq[b0]);
                    assert(oldseq[a0].sock_id != oldseq[b0].sock_id);
                }
            }
            return Ok(CloseOutcome::Removed);
        }
        let sn = self.sockets[i].send_param.next;
        let rn = self.sockets[i].recv_param.next;
        proof {
            tcpflags::lemma_flag_bits();
        }
        let seg = self.sockets[i].send_tcp_packet(
            sn,
            rn,
            tcpflags::FIN | tcpflags::ACK,
            Vec::new(),
            now,
        );
        out.push(Outgoing { sock_id, segment: seg });
        self.sockets[i].send_param.next = sn + 1;
        let outcome = if st == TcpStatus::Established {
            self.sockets[i].status = TcpStatus::FinWait1;
            CloseOutcome::AwaitClose
        } else if st == TcpStatus::CloseWait {
            self.sockets[i].status = TcpStatus::LastAck;
            CloseOutcome::AwaitClose
        } else {
            CloseOutcome::Silent
        };
        proof {
            lemma_registry_update_frame(*old(self), *self, i as int);
        }
        Ok(outcome)
    }

    /// One pass of the timer worker over every connection: each
    /// retransmission queue is scanned as `Socket::timer_scan` describes,
    /// and the last announcement, if any, is left in the mailbox.
    #[verifier::rlimit(100)]
    #[verifier::spinoff_prover]
    pub fn timer_tick(&mut self, now: u64, events: &mut Vec<TCPEvent>, out: &mut Vec<Outgoing>)
        requires
            old(self).wf(),
        ensures
            final(self).wf(),
            final(self).sockets@.len() == old(self).sockets@.len(),
            forall|i: int|
                0 <= i < old(self).sockets@.len() ==> timer_rel(
                    #[trigger] old(self).sockets@[i],
                    final(self).sockets@[i],
                ),
            final(events)@.len() >= old(events)@.len(),
            final(events)@.subrange(0, old(events)@.len() as int) == old(events)@,
            forall|j: int|
                old(events)@.len() <= j < final(events)@.len() ==> ((#[trigger] final(
                    events
                )@[j]).kind == TCPEventKind::Acked || final(events)@[j].kind
                    == TCPEventKind::ConnectionClosed),
            final(out)@.len() >= old(out)@.len(),
            final(out)@.subrange(0, old(out)@.len() as int) == old(out)@,
            forall|j: int|
                old(out)@.len() <= j < final(out)@.len() ==> timer_out_ok(
                    #[trigger] final(out)@[j],
                    old(self).sockets@,
                ),
            // each connection's queue and window are exactly the scan's result
            forall|i: int|
                0 <= i < old(self).sockets@.len() ==> final(self).sockets@[i].retransmission_queue@
                    == spec_socket_scan(#[trigger] old(self).sockets@[i], now).0 && final(self).sockets@[i].send_param.window as int == spec_socket_scan(
                    old(self).sockets@[i],
                    now,
                ).1,
            // the pass announces exactly the scans' events, in registry order
            final(events)@ == old(events)@ + spec_timer_events(old(self).sockets@, now),
            final(events)@.len() > old(events)@.len() ==> final(self).event == Some(
                final(events)@.last(),
            ),
            final(events)@.len() == old(events)@.len() ==> final(self).event == old(self).event,
    {
        let pre_len = events.len();
        let ghost oev = events@;
        let ghost oout = out@;
        let n = self.sockets.len();
        let mut idx: usize = 0;
        proof {
            assert(events@.subrange(0, oev.len() as int) =~= oev);
            assert(out@.subrange(0, oout.len() as int) =~= oout);
            assert(old(self).sockets@.subrange(0, 0) =~= Seq::<Socket>::empty());
            assert(events@ =~= oev + spec_timer_events(
                old(self).sockets@.subrange(0, 0),
                now,
            ));
        }
        while idx < n
            invariant
                idx <= n,
                n == self.sockets@.len(),
                self.sockets@.len() == old(self).sockets@.len(),
                self.event == old(self).event,
                forall|k: int|
                    0 <= k < idx ==> timer_rel(
                        #[trigger] old(self).sockets@[k],
                        self.sockets@[k],
                    ),
                forall|k: int|
                    idx <= k < n ==> self.sockets@[k] == old(self).sockets@[k],
                old(self).wf(),
                events@.len() >= oev.len(),
                events@.subrange(0, oev.len() as int) == oev,
                forall|j: int|
                    oev.len() <= j < events@.len() ==> ((#[trigger] events@[j]).kind
                        == TCPEventKind::Acked || events@[j].kind
                        == TCPEventKind::ConnectionClosed),
                out@.len() >= oout.len(),
                out@.subrange(0, oout.len() as int) == oout,
                forall|j: int|
                    oout.len() <= j < out@.len() ==> timer_out_ok(
                        #[trigger] out@[j],
                        old(self).sockets@,
                    ),
                forall|k: int|
                    0 <= k < idx ==> self.sockets@[k].retransmission_queue@ == spec_socket_scan(
                        #[trigger] old(self).sockets@[k],
                        now,
                    ).0 && self.sockets@[k].send_param.window as int == spec_socket_scan(
                        old(self).sockets@[k],
                        now,
                    ).1,
                events@ == oev + spec_timer_events(old(self).sockets@.subrange(0, idx as int), now),
            decreases n - idx,
        {
            let ghost pre_ev2 = events@;
            let ghost pre_out2 = out@;
            proof {
                assert(self.sockets@[idx as int] == old(self).sockets@[idx as int]);
                assert(old(self).sockets@[idx as int].wf());
            }
            self.sockets[idx].timer_scan(now, events, out);
            proof {
                assert(events@.subrange(0, oev.len() as int) =~= oev);
                assert(out@.subrange(0, oout.len() as int) =~= oout);
                // the events of this scan extend the registry-order run
                assert(old(self).sockets@.subrange(0, idx + 1).drop_last() =~= old(self).sockets@.subrange(0, idx as int));
                assert(old(self).sockets@.subrange(0, idx + 1).last() == old(self).sockets@[idx as int]);
                assert(events@ =~= (oev + spec_timer_events(
                    old(self).sockets@.subrange(0, idx as int),
                    now,
                )) + spec_socket_scan(old(self).sockets@[idx as int], now).2);
                assert(events@ =~= oev + spec_timer_events(
                    old(self).sockets@.subrange(0, idx + 1),
                    now,
                ));
                if spec_socket_scan(old(self).sockets@[idx as int], now).3 is Some {
                    assert(out@.len() == pre_out2.len() + 1);
                    assert(out@.last().sock_id == old(self).sockets@[idx as int].sock_id);
                }

                assert forall|j: int| oout.len() <= j < out@.len() implies timer_out_ok(
                    #[trigger] out@[j],
                    old(self).sockets@,
                ) by {
                    if j < pre_out2.len() {
                        assert(out@[j] == pre_out2[j]);
                    } else {
                        assert(out@[j].sock_id == old(self).sockets@[idx as int].sock_id);
                        assert(retransmission_of(
                            out@[j],
                            old(self).sockets@[idx as int].retransmission_queue@,
                        ));
                    }
                }
                assert forall|j: int| oev.len() <= j < events@.len() implies ((
                #[trigger] events@[j]).kind == TCPEventKind::Acked || events@[j].kind
                    == TCPEventKind::ConnectionClosed) by {
                    if j < pre_ev2.len() {
                        assert(events@[j] == pre_ev2[j]);
                    }
                }
            }
            idx += 1;
        }
        proof {
            assert(old(self).sockets@.subrange(0, n as int) =~= old(self).sockets@);
            assert forall|a: int| 0 <= a < self.sockets@.len() implies (
            #[trigger] self.sockets@[a]).wf() by {
                assert(timer_rel(old(self).sockets@[a], self.sockets@[a]));
                assert(old(self).sockets@[a].wf());
            }
            assert forall|a: int, b: int|
                0 <= a < b < self.sockets@.len() implies self.sockets@[a].sock_id
                != self.sockets@[b].sock_id by {
                assert(timer_rel(old(self).sockets@[a], self.sockets@[a]));
                assert(timer_rel(old(self).sockets@[b], self.sockets@[b]));
            }
        }
        self.sync_event_slot(events, pre_len);
    }

    /// The receive worker's dispatch for one inbound IPv4 datagram carrying
    /// a TCP segment: parse the header (drop a buffer too short for one),
    /// key the registry by the packet's destination as local and source as
    /// remote endpoint, fall back to the listening socket bound to the local
    /// endpoint, drop what matches neither or fails the codec's checksum
    /// verdict, and hand the segment to the handler of the connection's
    /// state. Replies and announcements are appended to `out` and `events`.
    pub fn on_segment(
        &mut self,
        local_addr: u32,
        remote_addr: u32,
        tcp_bytes: &Vec<u8>,
        checksum_ok: bool,
        now: u64,
        events: &mut Vec<TCPEvent>,
        out: &mut Vec<Outgoing>,
    ) -> (r: Result<(), TcpError>)
        requires
            old(self).wf(),
        ensures
            final(self).wf(),
            final(events)@.len() >= old(events)@.len(),
            final(events)@.subrange(0, old(events)@.len() as int) == old(events)@,
            final(out)@.len() >= old(out)@.len(),
            final(out)@.subrange(0, old(out)@.len() as int) == old(out)@,
            tcp_bytes@.len() < 20 ==> r is Ok && *final(self) == *old(self) && final(events)@
                == old(events)@ && final(out)@ == old(out)@,
            !checksum_ok ==> r is Ok && *final(self) == *old(self) && final(events)@ == old(events)@ && final(out)@ == old(out)@,
            tcp_bytes@.len() >= 20 && !old(self).spec_has_socket(
                SockID {
                    local_addr,
                    remote_addr,
                    local_port: crate::parse::be16_at(tcp_bytes@, 2) as u16,
                    remote_port: crate::parse::be16_at(tcp_bytes@, 0) as u16,
                },
            ) && !old(self).spec_has_socket(
                SockID {
                    local_addr,
                    remote_addr: UNDETERMINED_IP_ADDR,
                    local_port: crate::parse::be16_at(tcp_bytes@, 2) as u16,
                    remote_port: UNDETERMINED_PORT,
                },
            ) ==> r is Ok && *final(self) == *old(self) && final(events)@ == old(events)@ && final(out)@ == old(out)@,
            // a segment for a registered ESTABLISHED connection is processed
            // by the ESTABLISHED step relation on the decoded fields
            (tcp_bytes@.len() >= 20 && checksum_ok && old(self).spec_has_socket(
                SockID {
                    local_addr,
                    remote_addr,
                    local_port: crate::parse::be16_at(tcp_bytes@, 2) as u16,
                    remote_port: crate::parse::be16_at(tcp_bytes@, 0) as u16,
                },
            )) ==> exists|i: int|
                0 <= i < old(self).sockets@.len() && (#[trigger] old(self).sockets@[i]).sock_id
                    == (SockID {
                    local_addr,
                    remote_addr,
                    local_port: crate::parse::be16_at(tcp_bytes@, 2) as u16,
                    remote_port: crate::parse::be16_at(tcp_bytes@, 0) as u16,
                }) && (old(self).sockets@[i].status == TcpStatus::Established
                    ==> exists|sg: Segment|
                    seg_decodes_from(sg, tcp_bytes@) && established_step(
                        old(self).sockets@[i],
                        final(self).sockets@[i],
                        sg,
                        old(events)@,
                        final(events)@,
                        old(out)@,
                        final(out)@,
                    )) && (old(self).sockets@[i].status == TcpStatus::SynSent
                    ==> exists|sg: Segment|
                    seg_decodes_from(sg, tcp_bytes@) && synsent_step(
                        old(self).sockets@[i],
                        final(self).sockets@[i],
                        sg,
                        old(events)@,
                        final(events)@,
                        old(out)@,
                        final(out)@,
                    )) && ((old(self).sockets@[i].status == TcpStatus::FinWait1 || old(
                    self,
                ).sockets@[i].status == TcpStatus::FinWait2) ==> exists|sg: Segment|
                    seg_decodes_from(sg, tcp_bytes@) && finwait_step(
                        old(self).sockets@[i],
                        final(self).sockets@[i],
                        sg,
                        old(events)@,
                        final(events)@,
                        old(out)@,
                        final(out)@,
                    )) && ((old(self).sockets@[i].status == TcpStatus::CloseWait || old(
                    self,
                ).sockets@[i].status == TcpStatus::LastAck) ==> exists|sg: Segment|
                    seg_decodes_from(sg, tcp_bytes@) && close_wait_step(
                        old(self).sockets@[i],
                        final(self).sockets@[i],
                        sg,
                    )) && (old(self).sockets@[i].status == TcpStatus::SynRcvd
                    ==> exists|sg: Segment|
                    seg_decodes_from(sg, tcp_bytes@) && synrcvd_step(
                        old(self).sockets@,
                        final(self).sockets@,
                        i,
                        sg,
                        old(events)@,
                        final(events)@,
                    )),
            // a SYN that matches no connection falls back to the listening
            // socket, which spawns the SYN-RECEIVED child keyed by the
            // packet's source and replies SYN|ACK
            (tcp_bytes@.len() >= 20 && checksum_ok && !old(self).spec_has_socket(
                SockID {
                    local_addr,
                    remote_addr,
                    local_port: crate::parse::be16_at(tcp_bytes@, 2) as u16,
                    remote_port: crate::parse::be16_at(tcp_bytes@, 0) as u16,
                },
            ) && old(self).spec_has_socket(
                SockID {
                    local_addr,
                    remote_addr: UNDETERMINED_IP_ADDR,
                    local_port: crate::parse::be16_at(tcp_bytes@, 2) as u16,
                    remote_port: UNDETERMINED_PORT,
                },
            )) ==> exists|i: int|
                0 <= i < old(self).sockets@.len() && (#[trigger] old(self).sockets@[i]).sock_id
                    == (SockID {
                    local_addr,
                    remote_addr: UNDETERMINED_IP_ADDR,
                    local_port: crate::parse::be16_at(tcp_bytes@, 2) as u16,
                    remote_port: UNDETERMINED_PORT,
                }) && ((old(self).sockets@[i].status == TcpStatus::Listen && tcp_bytes@[13]
                    & tcpflags::ACK == 0 && tcp_bytes@[13] & tcpflags::SYN != 0
                    && crate::parse::be32_at(tcp_bytes@, 4) < u32::MAX as int) ==> final(
                    out
                )@.len() == old(out)@.len() + 1 && final(out)@.last().segment.flags == (
                tcpflags::SYN | tcpflags::ACK) && final(out)@.last().segment.ack as int
                    == crate::parse::be32_at(tcp_bytes@, 4) + 1 && final(self).spec_has_socket(
                    SockID {
                        local_addr,
                        remote_addr,
                        local_port: crate::parse::be16_at(tcp_bytes@, 2) as u16,
                        remote_port: crate::parse::be16_at(tcp_bytes@, 0) as u16,
                    },
                )),
    {
        let seg = match crate::parse::parse_tcp_segment(tcp_bytes) {
            None => {
                return Ok(());
            },
            Some(seg) => seg,
        };
        let sock_id = SockID {
            local_addr,
            remote_addr,
            local_port: seg.dst_port,
            remote_port: seg.src_port,
        };
        let listener_id = SockID {
            local_addr,
            remote_addr: UNDETERMINED_IP_ADDR,
            local_port: seg.dst_port,
            remote_port: UNDETERMINED_PORT,
        };
        let ghost mut dmatch: int = -1;
        let ghost mut lmatch: int = -1;
        let (target, status) = match self.find_socket(sock_id) {
            Some(i) => {
                proof {
                    dmatch = i as int;
                }
                (sock_id, self.sockets[i].status)
            },
            None => {
                match self.find_socket(listener_id) {
                    Some(li) => {
                        proof {
                            lmatch = li as int;
                        }
                        (listener_id, self.sockets[li].status)
                    },
                    None => {
                        return Ok(());
                    },
                }
            },
        };
        if !checksum_ok {
            return Ok(());
        }
        match status {
            TcpStatus::Listen => {
                let r = self.listen_handler(target, &seg, remote_addr, now, out);
                proof {
                    if 0 <= lmatch {
                        assert(old(self).sockets@[lmatch].sock_id == target);
                        if seg.flags & tcpflags::ACK == 0 && seg.flags & tcpflags::SYN != 0
                            && seg.seq < u32::MAX {
                            assert(spec_child_sock_id(target, remote_addr, seg) == sock_id);
                        }
                    }
                }
                r
            },
            TcpStatus::SynRcvd => {
                let r = self.synrcvd_handler(target, &seg, events);
                proof {
                    if 0 <= dmatch {
                        assert(old(self).sockets@[dmatch].sock_id == target);
                        assert(r is Ok);
                        let i2 = choose|i2: int|
                            0 <= i2 < old(self).sockets@.len() && (#[trigger] old(
                                self,
                            ).sockets@[i2]).sock_id == target && synrcvd_step(
                                old(self).sockets@,
                                self.sockets@,
                                i2,
                                seg,
                                old(events)@,
                                events@,
                            );
                        if i2 != dmatch {
                            assert(old(self).sockets@[i2].sock_id
                                != old(self).sockets@[dmatch].sock_id);
                        }
                        assert(seg_decodes_from(seg, tcp_bytes@));
                        assert(synrcvd_step(
                            old(self).sockets@,
                            self.sockets@,
                            dmatch,
                            seg,
                            old(events)@,
                            events@,
                        ));
                    }
                }
                r
            },
            TcpStatus::SynSent => {
                let r = self.synsent_handler(target, &seg, now, events, out);
                proof {
                    if 0 <= dmatch {
                        assert(old(self).sockets@[dmatch].sock_id == target);
                        assert(r is Ok);
                        let i2 = choose|i2: int|
                            0 <= i2 < old(self).sockets@.len() && (#[trigger] old(
                                self,
                            ).sockets@[i2]).sock_id == target && synsent_step(
                                old(self).sockets@[i2],
                                self.sockets@[i2],
                                seg,
                                old(events)@,
                                events@,
                                old(out)@,
                                out@,
                            );
                        if i2 != dmatch {
                            assert(old(self).sockets@[i2].sock_id
                                != old(self).sockets@[dmatch].sock_id);
                        }
                        assert(seg_decodes_from(seg, tcp_bytes@));
                        assert(synsent_step(
                            old(self).sockets@[dmatch],
                            self.sockets@[dmatch],
                            seg,
                            old(events)@,
                            events@,
                            old(out)@,
                            out@,
                        ));
                    }
                }
                r
            },
            TcpStatus::Established => {
                let ghost pre = *self;
                let r = self.established_handler(target, &seg, now, events, out);
                proof {
                    if 0 <= dmatch {
                        assert(old(self).sockets@[dmatch].sock_id == target);
                        assert(pre == *old(self));
                        assert(r is Ok);
                        let i2 = choose|i2: int|
                            0 <= i2 < old(self).sockets@.len() && (#[trigger] old(self).sockets@[i2]).sock_id == target && established_step(
                                old(self).sockets@[i2],
                                self.sockets@[i2],
                                seg,
                                old(events)@,
                                events@,
                                old(out)@,
                                out@,
                            );
                        if i2 != dmatch {
                            assert(old(self).sockets@[i2].sock_id
                                != old(self).sockets@[dmatch].sock_id);
                        }
                        assert(seg_decodes_from(seg, tcp_bytes@));
                        assert(established_step(
                            old(self).sockets@[dmatch],
                            self.sockets@[dmatch],
                            seg,
                            old(events)@,
                            events@,
                            old(out)@,
                            out@,
                        ));
                    }
                }
                r
            },
            TcpStatus::CloseWait | TcpStatus::LastAck => {
                let r = self.close_handler(target, &seg);
                proof {
                    if 0 <= dmatch {
                        assert(old(self).sockets@[dmatch].sock_id == target);
                        assert(r is Ok);
                        let i2 = choose|i2: int|
                            0 <= i2 < old(self).sockets@.len() && (#[trigger] old(
                                self,
                            ).sockets@[i2]).sock_id == target && close_wait_step(
                                old(self).sockets@[i2],
                                self.sockets@[i2],
                                seg,
                            );
                        if i2 != dmatch {
                            assert(old(self).sockets@[i2].sock_id
                                != old(self).sockets@[dmatch].sock_id);
                        }
                        assert(seg_decodes_from(seg, tcp_bytes@));
                        assert(close_wait_step(
                            old(self).sockets@[dmatch],
                            self.sockets@[dmatch],
                            seg,
                        ));
                    }
                }
                r
            },
            TcpStatus::FinWait1 | TcpStatus::FinWait2 => {
                let r = self.finwait_handler(target, &seg, now, events, out);
                proof {
                    if 0 <= dmatch {
                        assert(old(self).sockets@[dmatch].sock_id == target);
                        assert(r is Ok);
                        let i2 = choose|i2: int|
                            0 <= i2 < old(self).sockets@.len() && (#[trigger] old(
                                self,
                            ).sockets@[i2]).sock_id == target && finwait_step(
                                old(self).sockets@[i2],
                                self.sockets@[i2],
                                seg,
                                old(events)@,
                                events@,
                                old(out)@,
                                out@,
                            );
                        if i2 != dmatch {
                            assert(old(self).sockets@[i2].sock_id
                                != old(self).sockets@[dmatch].sock_id);
                        }
                        assert(seg_decodes_from(seg, tcp_bytes@));
                        assert(finwait_step(
                            old(self).sockets@[dmatch],
                            self.sockets@[dmatch],
                            seg,
                            old(events)@,
                            events@,
                            old(out)@,
                            out@,
                        ));
                    }
                }
                r
            },
            _ => Ok(()),
        }
    }

    /// Takes the head of the listener's acceptance queue: the connection
    /// whose handshake completed first. The caller parks on
    /// `ConnectionCompleted` for the listener before calling; a wake that
    /// finds the queue empty is reported so the caller can park again.
    ///
    /// Each queued identifier named a registered ESTABLISHED connection at
    /// the moment the handshake-completing ACK queued it (the contract of
    /// `synrcvd_handler`); the registry cannot pin that at dequeue time,
    /// because the child may have been closed and removed in between.
    pub fn accept(&mut self, sock_id: SockID) -> (r: Result<SockID, TcpError>)
        requires
            old(self).wf(),
        ensures
            final(self).wf(),
            final(self).event == old(self).event,
            !old(self).spec_has_socket(sock_id) ==> r == Err::<SockID, TcpError>(
                TcpError::NoSuchSocket(sock_id),
            ) && *final(self) == *old(self),
            old(self).spec_has_socket(sock_id) ==> exists|i: int|
                0 <= i < old(self).sockets@.len() && (#[trigger] old(self).sockets@[i]).sock_id
                    == sock_id && {
                    let s = old(self).sockets@[i];
                    if s.connection_queue@.len() == 0 {
                        r == Err::<SockID, TcpError>(TcpError::NoPendingConnection(sock_id))
                            && *final(self) == *old(self)
                    } else {
                        &&& r == Ok::<SockID, TcpError>(s.connection_queue@[0])
                        &&& final(self).sockets@.len() == old(self).sockets@.len()
                        &&& final(self).sockets@[i].connection_queue@
                            == s.connection_queue@.subrange(1, s.connection_queue@.len() as int)
                        &&& final(self).sockets@[i].sock_id == s.sock_id
                        &&& final(self).sockets@[i].status == s.status
                        &&& final(self).sockets@[i].send_param == s.send_param
                        &&& final(self).sockets@[i].recv_param == s.recv_param
                        &&& final(self).sockets@[i].recv_buffer@ == s.recv_buffer@
                        &&& final(self).sockets@[i].retransmission_queue@
                            == s.retransmission_queue@
                        &&& final(self).sockets@[i].listening_socket == s.listening_socket
                        &&& forall|j: int|
                            0 <= j < old(self).sockets@.len() && j != i
                                ==> final(self).sockets@[j] == old(self).sockets@[j]
                    }
                },
    {
        let found = self.find_socket(sock_id);
        match found {
            None => Err(TcpError::NoSuchSocket(sock_id)),
            Some(i) => {
                if self.sockets[i].connection_queue.len() == 0 {
                    Err(TcpError::NoPendingConnection(sock_id))
                } else {
                    let ghost oldq = self.sockets@[i as int].connection_queue@;
                    let child = self.sockets[i].connection_queue.remove(0);
                    proof {
                        assert(self.sockets@[i as int].connection_queue@ =~= oldq.subrange(
                            1,
                            oldq.len() as int,
                        ));
                    }
                    Ok(child)
                }
            },
        }
    }
}

} // verus!
