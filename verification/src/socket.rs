use vstd::prelude::*;

use crate::tcpflags;
use crate::types::{
    clone_segment, clone_vec_u8, seg_matches, Outgoing, Segment, SockID, TCPEvent, TCPEventKind,
    TcpStatus,
};

verus! {

/// Capacity of the in-order receive buffer of every connection.
pub const SOCKET_BUFFER_SIZE: usize = 4380;

/// Maximum segment size: the payload cap per transmitted segment.
pub const MSS: usize = 1460;

/// A queued segment is given up after this many transmissions.
pub const MAX_TRANSMISSION: u8 = 5;

/// A queued segment is retransmitted once it has waited this long.
pub const RETRANSMISSION_TIMEOUT_MS: u64 = 3000;

pub const PORT_RANGE_START: u16 = 40000;
pub const PORT_RANGE_END: u16 = 60000;

/// Send-side sequence bookkeeping. `unacked_seq` is the oldest byte not yet
/// acknowledged, `next` the next sequence number to assign, and `window` how
/// many more bytes may be put in flight.
pub struct SendParam {
    pub unacked_seq: u32,
    pub next: u32,
    pub window: u16,
    pub initial_seq: u32,
}

/// Receive-side sequence bookkeeping. `next` is the lowest sequence not yet
/// received in order, `tail` the highest sequence reached by any (possibly
/// out-of-order) write, and `window` the free space of the receive buffer.
pub struct RecvParam {
    pub next: u32,
    pub window: u16,
    pub initial_seq: u32,
    pub tail: u32,
}

/// One yet-unacknowledged outgoing segment, kept for retransmission.
pub struct RetransmissionQueueEntry {
    pub segment: Segment,
    pub latest_transmission_time: u64,
    pub transmission_count: u8,
}

/// One connection record. The receive buffer is a byte window anchored so
/// that sequence `recv_param.next` lives at offset
/// `SOCKET_BUFFER_SIZE - recv_param.window`.
pub struct Socket {
    pub sock_id: SockID,
    pub status: TcpStatus,
    pub send_param: SendParam,
    pub recv_param: RecvParam,
    pub recv_buffer: Vec<u8>,
    pub retransmission_queue: Vec<RetransmissionQueueEntry>,
    pub connection_queue: Vec<SockID>,
    pub listening_socket: Option<SockID>,
}

/// Builds an all-zero byte buffer of the requested length.
pub fn zero_buffer(n: usize) -> (r: Vec<u8>)
    ensures
        r@.len() == n,
        forall|i: int| 0 <= i < n ==> r@[i] == 0u8,
{
    let mut v: Vec<u8> = Vec::new();
    let mut i: usize = 0;
    while i < n
        invariant
            i <= n,
            v@.len() == i,
            forall|j: int| 0 <= j < i ==> v@[j] == 0u8,
        decreases n - i,
    {
        v.push(0u8);
        i += 1;
    }
    v
}

/// Credits `l` bytes back to a window, saturating at the type's bound.
pub fn credit_window(w: u16, l: usize) -> (r: u16)
    ensures
        r as int == spec_credit_window(w as int, l as int),
{
    let room: usize = (u16::MAX - w) as usize;
    if l >= room {
        u16::MAX
    } else {
        w + (l as u16)
    }
}

pub open spec fn spec_credit_window(w: int, l: int) -> int {
    if w + l >= 0xffff {
        0xffff
    } else {
        w + l
    }
}

/// The entry derives from one of the entries of `oq`: same segment, and a
/// transmission count that has not decreased.
pub open spec fn entry_from(e: RetransmissionQueueEntry, oq: Seq<RetransmissionQueueEntry>) -> bool {
    exists|k: int|
        0 <= k < oq.len() && seg_matches(e.segment, #[trigger] oq[k].segment)
            && e.transmission_count >= oq[k].transmission_count
}

/// The queue is ordered by sequence number, as it is whenever no
/// retransmission has moved an entry to the tail.
pub open spec fn rtx_sorted(q: Seq<RetransmissionQueueEntry>) -> bool {
    forall|a: int, b: int|
        0 <= a <= b < q.len() ==> (#[trigger] q[a]).segment.seq <= (#[trigger] q[b]).segment.seq
}

/// The exact result of pruning: removes acknowledged entries from the head
/// while the head's sequence lies below `unacked`, crediting each removed
/// payload length to the window (saturating); yields the remaining queue,
/// the credited window and the number of removals.
pub open spec fn spec_prune(
    q: Seq<RetransmissionQueueEntry>,
    unacked: u32,
    window: int,
) -> (Seq<RetransmissionQueueEntry>, int, int)
    decreases q.len(),
{
    if q.len() > 0 && q[0].segment.seq < unacked {
        let rec = spec_prune(
            q.drop_first(),
            unacked,
            spec_credit_window(window, q[0].segment.payload@.len() as int),
        );
        (rec.0, rec.1, rec.2 + 1)
    } else {
        (q, window, 0)
    }
}

/// The pruning removal count is never negative.
pub proof fn lemma_spec_prune_nonneg(q: Seq<RetransmissionQueueEntry>, unacked: u32, window: int)
    ensures
        spec_prune(q, unacked, window).2 >= 0,
    decreases q.len(),
{
    if q.len() > 0 && q[0].segment.seq < unacked {
        lemma_spec_prune_nonneg(
            q.drop_first(),
            unacked,
            spec_credit_window(window, q[0].segment.payload@.len() as int),
        );
    }
}

/// The transmitted segment is stored in `oq` under an entry whose
/// transmission count was still below the cap.
pub open spec fn retransmission_of(o: Outgoing, oq: Seq<RetransmissionQueueEntry>) -> bool {
    exists|k: int|
        0 <= k < oq.len() && seg_matches(o.segment, #[trigger] oq[k].segment)
            && oq[k].transmission_count < MAX_TRANSMISSION
}

/// The stored entry restamped by a retransmission: same segment, sent now,
/// one more transmission on its count.
pub open spec fn spec_restamp(e: RetransmissionQueueEntry, now: u64) -> RetransmissionQueueEntry {
    RetransmissionQueueEntry {
        segment: e.segment,
        latest_transmission_time: now,
        transmission_count: (e.transmission_count + 1) as u8,
    }
}

/// The exact result of one timer pass over a retransmission queue: the
/// resulting queue, the credited send window, the announcements in order,
/// and the entry retransmitted, if one was. Scanned from the head: an entry
/// below the cumulative ACK leaves, credits its payload length and
/// announces `Acked` (and `ConnectionClosed` when it carried FIN in
/// LAST-ACK); a head younger than the timeout stops the scan; a timed-out
/// head below the transmission cap is restamped to `now`, its count
/// incremented, moved to the tail and handed out for retransmission; one at
/// the cap leaves, announcing `ConnectionClosed` when it carried FIN in
/// LAST-ACK, FIN-WAIT-1 or FIN-WAIT-2.
pub open spec fn spec_timer_scan(
    q: Seq<RetransmissionQueueEntry>,
    unacked: u32,
    status: TcpStatus,
    window: int,
    sock_id: SockID,
    now: u64,
) -> (Seq<RetransmissionQueueEntry>, int, Seq<TCPEvent>, Option<RetransmissionQueueEntry>)
    decreases q.len(),
{
    if q.len() == 0 {
        (q, window, Seq::<TCPEvent>::empty(), None)
    } else {
        let h = q[0];
        if h.segment.seq < unacked {
            let evs = if h.segment.flags & tcpflags::FIN != 0 && status == TcpStatus::LastAck {
                seq![
                    TCPEvent { sock_id, kind: TCPEventKind::Acked },
                    TCPEvent { sock_id, kind: TCPEventKind::ConnectionClosed },
                ]
            } else {
                seq![TCPEvent { sock_id, kind: TCPEventKind::Acked }]
            };
            let rec = spec_timer_scan(
                q.drop_first(),
                unacked,
                status,
                spec_credit_window(window, h.segment.payload@.len() as int),
                sock_id,
                now,
            );
            (rec.0, rec.1, evs + rec.2, rec.3)
        } else if now < h.latest_transmission_time || now - h.latest_transmission_time
            < RETRANSMISSION_TIMEOUT_MS {
            (q, window, Seq::<TCPEvent>::empty(), None)
        } else if h.transmission_count < MAX_TRANSMISSION {
            (q.drop_first().push(spec_restamp(h, now)), window, Seq::<TCPEvent>::empty(), Some(h))
        } else {
            let evs = if h.segment.flags & tcpflags::FIN != 0 && (status == TcpStatus::LastAck
                || status == TcpStatus::FinWait1 || status == TcpStatus::FinWait2) {
                seq![TCPEvent { sock_id, kind: TCPEventKind::ConnectionClosed }]
            } else {
                Seq::<TCPEvent>::empty()
            };
            let rec = spec_timer_scan(q.drop_first(), unacked, status, window, sock_id, now);
            (rec.0, rec.1, evs + rec.2, rec.3)
        }
    }
}

/// The scan result of one connection, as `spec_timer_scan` yields it.
pub open spec fn spec_socket_scan(s: Socket, now: u64) -> (
    Seq<RetransmissionQueueEntry>,
    int,
    Seq<TCPEvent>,
    Option<RetransmissionQueueEntry>,
) {
    spec_timer_scan(
        s.retransmission_queue@,
        s.send_param.unacked_seq,
        s.status,
        s.send_param.window as int,
        s.sock_id,
        now,
    )
}

/// The announcements of one timer pass over a whole registry, in registry
/// order.
pub open spec fn spec_timer_events(socks: Seq<Socket>, now: u64) -> Seq<TCPEvent>
    decreases socks.len(),
{
    if socks.len() == 0 {
        Seq::<TCPEvent>::empty()
    } else {
        spec_timer_events(socks.drop_last(), now) + spec_socket_scan(socks.last(), now).2
    }
}

impl Socket {
    /// Well-formedness: the buffer has its fixed capacity, the free window
    /// fits in it, the send stream satisfies `unacked_seq <= next`, the
    /// receive stream satisfies `next <= tail`, and the span of bytes
    /// buffered past `next` fits in the free window.
    pub open spec fn wf(self) -> bool {
        &&& self.recv_buffer@.len() == SOCKET_BUFFER_SIZE
        &&& self.recv_param.window as int <= SOCKET_BUFFER_SIZE as int
        &&& self.recv_param.next <= self.recv_param.tail
        &&& self.recv_param.tail as int - self.recv_param.next as int
            <= self.recv_param.window as int
        &&& self.send_param.unacked_seq <= self.send_param.next
    }

    pub fn new(
        local_addr: u32,
        remote_addr: u32,
        local_port: u16,
        remote_port: u16,
        status: TcpStatus,
    ) -> (r: Socket)
        ensures
            r.wf(),
            r.sock_id == (SockID { local_addr, remote_addr, local_port, remote_port }),
            r.status == status,
            r.send_param.unacked_seq == 0 && r.send_param.next == 0,
            r.send_param.window == 0 && r.send_param.initial_seq == 0,
            r.recv_param.next == 0 && r.recv_param.tail == 0,
            r.recv_param.initial_seq == 0,
            r.recv_param.window == SOCKET_BUFFER_SIZE as u16,
            r.recv_buffer@.len() == SOCKET_BUFFER_SIZE,
            r.retransmission_queue@.len() == 0,
            r.connection_queue@.len() == 0,
            r.listening_socket is None,
    {
        Socket {
            sock_id: SockID { local_addr, remote_addr, local_port, remote_port },
            status,
            send_param: SendParam { unacked_seq: 0, next: 0, window: 0, initial_seq: 0 },
            recv_param: RecvParam {
                next: 0,
                window: SOCKET_BUFFER_SIZE as u16,
                initial_seq: 0,
                tail: 0,
            },
            recv_buffer: zero_buffer(SOCKET_BUFFER_SIZE),
            retransmission_queue: Vec::new(),
            connection_queue: Vec::new(),
            listening_socket: None,
        }
    }

    pub fn get_sock_id(&self) -> (r: SockID)
        ensures
            r == self.sock_id,
    {
        self.sock_id
    }

    /// Buffer offset at which the payload of a segment with sequence `seq`
    /// is written: the in-order bytes already buffered occupy the prefix up
    /// to `SOCKET_BUFFER_SIZE - window`, and `seq` sits `seq - next` bytes
    /// past that anchor.
    pub open spec fn spec_recv_offset(self, seq: u32) -> int {
        SOCKET_BUFFER_SIZE as int - self.recv_param.window as int
            + (seq as int - self.recv_param.next as int)
    }

    /// How many payload bytes fit: the part of the payload that lies before
    /// the end of the receive buffer.
    pub open spec fn spec_copy_len(self, seq: u32, payload_len: int) -> int {
        if payload_len < SOCKET_BUFFER_SIZE as int - self.spec_recv_offset(seq) {
            payload_len
        } else {
            SOCKET_BUFFER_SIZE as int - self.spec_recv_offset(seq)
        }
    }

    /// Reassembly: writes a segment's payload into the receive buffer at its
    /// sequence-aligned offset, advances `tail` over the bytes reached, and
    /// advances the in-order point `next` only when the segment starts
    /// exactly at `next` (out-of-order data fills holes without moving it).
    /// Returns the bare ACK to transmit when bytes were accepted, and
    /// whether the arrival is to be announced as `DataArrived`.
    ///
    /// A segment whose sequence lies below `next` was already delivered and
    /// is dropped without a reply; one whose offset falls past the buffer
    /// (or whose end would not fit in 32-bit sequence space) is dropped but
    /// still announced.
    pub fn process_payload(&mut self, seq: u32, payload: &Vec<u8>, now: u64) -> (r: (
        Option<Segment>,
        bool,
    ))
        requires
            old(self).wf(),
            payload@.len() >= 1,
        ensures
            final(self).wf(),
            final(self).sock_id == old(self).sock_id,
            final(self).status == old(self).status,
            final(self).send_param == old(self).send_param,
            final(self).retransmission_queue@ == old(self).retransmission_queue@,
            final(self).connection_queue@ == old(self).connection_queue@,
            final(self).listening_socket == old(self).listening_socket,
            final(self).recv_param.initial_seq == old(self).recv_param.initial_seq,
            // conservation: what `next` gains, `window` loses
            final(self).recv_param.next as int + final(self).recv_param.window as int
                == old(self).recv_param.next as int + old(self).recv_param.window as int,
            // dropped cases leave the connection unchanged
            seq < old(self).recv_param.next ==> *final(self) == *old(self) && r.0 is None && !r.1,
            seq >= old(self).recv_param.next && old(self).spec_recv_offset(seq)
                >= SOCKET_BUFFER_SIZE as int ==> *final(self) == *old(self) && r.0 is None && r.1,
            seq >= old(self).recv_param.next && old(self).spec_recv_offset(seq)
                < SOCKET_BUFFER_SIZE as int && seq as int + old(self).spec_copy_len(
                seq,
                payload@.len() as int,
            ) > u32::MAX as int ==> *final(self) == *old(self) && r.0 is None && r.1,
            // the accepting case
            (seq >= old(self).recv_param.next && old(self).spec_recv_offset(seq)
                < SOCKET_BUFFER_SIZE as int && seq as int + old(self).spec_copy_len(
                seq,
                payload@.len() as int,
            ) <= u32::MAX as int) ==> {
                let off = old(self).spec_recv_offset(seq);
                let copy = old(self).spec_copy_len(seq, payload@.len() as int);
                let seq_end = seq as int + copy;
                let new_tail = if old(self).recv_param.tail as int >= seq_end {
                    old(self).recv_param.tail as int
                } else {
                    seq_end
                };
                &&& r.1
                &&& final(self).recv_buffer@.len() == SOCKET_BUFFER_SIZE
                &&& forall|k: int|
                    0 <= k < SOCKET_BUFFER_SIZE as int ==> final(self).recv_buffer@[k] == (if off
                        <= k < off + copy {
                        payload@[k - off]
                    } else {
                        old(self).recv_buffer@[k]
                    })
                &&& final(self).recv_param.tail as int == new_tail
                &&& (seq == old(self).recv_param.next ==> final(self).recv_param.next as int
                    == new_tail && final(self).recv_param.window as int
                    == old(self).recv_param.window as int - (new_tail - seq as int))
                &&& (seq > old(self).recv_param.next ==> final(self).recv_param.next
                    == old(self).recv_param.next && final(self).recv_param.window
                    == old(self).recv_param.window)
                &&& r.0 matches Some(a) && a.flags == tcpflags::ACK && a.seq
                    == old(self).send_param.next && a.ack == final(self).recv_param.next
                    && a.window == final(self).recv_param.window && a.payload@.len() == 0
                    && a.src_port == old(self).sock_id.local_port && a.dst_port
                    == old(self).sock_id.remote_port
            },
    {
        if seq < self.recv_param.next {
            return (None, false);
        }
        let used: usize = SOCKET_BUFFER_SIZE - self.recv_param.window as usize;
        let delta: u32 = seq - self.recv_param.next;
        if delta as u64 >= (SOCKET_BUFFER_SIZE - used) as u64 {
            return (None, true);
        }
        let off: usize = used + delta as usize;
        let room: usize = SOCKET_BUFFER_SIZE - off;
        let copy: usize = if payload.len() < room {
            payload.len()
        } else {
            room
        };
        if ((u32::MAX - seq) as usize) < copy {
            return (None, true);
        }
        let mut j: usize = 0;
        while j < copy
            invariant
                j <= copy,
                copy <= payload@.len(),
                off + copy <= SOCKET_BUFFER_SIZE,
                self.recv_buffer@.len() == SOCKET_BUFFER_SIZE,
                forall|k: int| 0 <= k < j ==> self.recv_buffer@[off + k] == payload@[k],
                forall|k: int|
                    0 <= k < SOCKET_BUFFER_SIZE as int && !(off <= k < off + j)
                        ==> self.recv_buffer@[k] == old(self).recv_buffer@[k],
                self.sock_id == old(self).sock_id,
                self.status == old(self).status,
                self.send_param == old(self).send_param,
                self.recv_param == old(self).recv_param,
                self.retransmission_queue@ == old(self).retransmission_queue@,
                self.connection_queue@ == old(self).connection_queue@,
                self.listening_socket == old(self).listening_socket,
            decreases copy - j,
        {
            let b = payload[j];
            self.recv_buffer.set(off + j, b);
            j += 1;
        }
        let seq_end: u32 = seq + copy as u32;
        if self.recv_param.tail < seq_end {
            self.recv_param.tail = seq_end;
        }
        if seq == self.recv_param.next {
            proof {
                assert(off == SOCKET_BUFFER_SIZE as int - old(self).recv_param.window as int);
                assert(copy <= old(self).recv_param.window as int);
                assert(old(self).recv_param.tail as int - seq as int
                    <= old(self).recv_param.window as int);
            }
            let adv: u32 = self.recv_param.tail - seq;
            self.recv_param.next = self.recv_param.tail;
            self.recv_param.window = self.recv_param.window - adv as u16;
        }
        proof {
            tcpflags::lemma_flag_bits();
        }
        let ack_seq = self.send_param.next;
        let ack_ack = self.recv_param.next;
        let ack_seg = self.send_tcp_packet(ack_seq, ack_ack, tcpflags::ACK, Vec::new(), now);
        (Some(ack_seg), true)
    }

    /// Removes from the head of the retransmission queue every entry whose
    /// sequence lies below the cumulative ACK `send_param.unacked_seq`,
    /// crediting each removed payload length back to the send window and
    /// announcing one `Acked` event per removal. The scan stops at the first
    /// entry at or above the ACK, so afterwards the head (and, for a
    /// sequence-ordered queue, every entry) has a sequence at or above
    /// `unacked_seq`.
    pub fn prune_acked(&mut self, events: &mut Vec<TCPEvent>)
        requires
            old(self).wf(),
        ensures
            final(self).wf(),
            final(self).sock_id == old(self).sock_id,
            final(self).status == old(self).status,
            final(self).recv_param == old(self).recv_param,
            final(self).recv_buffer@ == old(self).recv_buffer@,
            final(self).connection_queue@ == old(self).connection_queue@,
            final(self).listening_socket == old(self).listening_socket,
            final(self).send_param.unacked_seq == old(self).send_param.unacked_seq,
            final(self).send_param.next == old(self).send_param.next,
            final(self).send_param.initial_seq == old(self).send_param.initial_seq,
            ({
                let pr = spec_prune(
                    old(self).retransmission_queue@,
                    old(self).send_param.unacked_seq,
                    old(self).send_param.window as int,
                );
                &&& final(self).retransmission_queue@ == pr.0
                &&& final(self).send_param.window as int == pr.1
                &&& final(events)@ == old(events)@ + Seq::new(
                    pr.2 as nat,
                    |x: int|
                        TCPEvent { sock_id: old(self).sock_id, kind: TCPEventKind::Acked },
                )
            }),
            final(self).retransmission_queue@.len() > 0
                ==> final(self).retransmission_queue@[0].segment.seq >= final(self).send_param.unacked_seq,
            rtx_sorted(old(self).retransmission_queue@) ==> forall|j: int|
                0 <= j < final(self).retransmission_queue@.len() ==> (#[trigger] final(self).retransmission_queue@[j]).segment.seq >= final(self).send_param.unacked_seq,
    {
        let ghost oq = self.retransmission_queue@;
        let ghost oev = events@;
        let ghost w0 = self.send_param.window as int;
        let ghost mut k: int = 0;
        proof {
            assert(self.retransmission_queue@ =~= oq.subrange(0, oq.len() as int));
            assert(oq.subrange(0, 0) =~= Seq::<RetransmissionQueueEntry>::empty());
            assert(events@ =~= oev + Seq::new(
                0nat,
                |x: int| TCPEvent { sock_id: self.sock_id, kind: TCPEventKind::Acked },
            ));
        }
        while self.retransmission_queue.len() > 0 && self.retransmission_queue[0].segment.seq
            < self.send_param.unacked_seq
            invariant
                0 <= k <= oq.len(),
                forall|j: int|
                    0 <= j < k ==> (#[trigger] oq[j]).segment.seq < old(self).send_param.unacked_seq,
                self.retransmission_queue@ == oq.subrange(k, oq.len() as int),
                spec_prune(oq, old(self).send_param.unacked_seq, w0).0 == spec_prune(
                    self.retransmission_queue@,
                    old(self).send_param.unacked_seq,
                    self.send_param.window as int,
                ).0,
                spec_prune(oq, old(self).send_param.unacked_seq, w0).1 == spec_prune(
                    self.retransmission_queue@,
                    old(self).send_param.unacked_seq,
                    self.send_param.window as int,
                ).1,
                spec_prune(oq, old(self).send_param.unacked_seq, w0).2 == k + spec_prune(
                    self.retransmission_queue@,
                    old(self).send_param.unacked_seq,
                    self.send_param.window as int,
                ).2,
                events@ == oev + Seq::new(
                    k as nat,
                    |x: int|
                        TCPEvent { sock_id: old(self).sock_id, kind: TCPEventKind::Acked },
                ),
                self.sock_id == old(self).sock_id,
                self.status == old(self).status,
                self.recv_param == old(self).recv_param,
                self.recv_buffer@ == old(self).recv_buffer@,
                self.connection_queue@ == old(self).connection_queue@,
                self.listening_socket == old(self).listening_socket,
                self.send_param.unacked_seq == old(self).send_param.unacked_seq,
                self.send_param.next == old(self).send_param.next,
                self.send_param.initial_seq == old(self).send_param.initial_seq,
                self.wf(),
            decreases oq.len() - k,
        {
            proof {
                assert(self.retransmission_queue@.len() == oq.len() - k);
                assert(k < oq.len());
            }
            let ghost prev_q = self.retransmission_queue@;
            let ghost prev_w = self.send_param.window as int;
            let e = self.retransmission_queue.remove(0);
            self.send_param.window = credit_window(self.send_param.window, e.segment.payload.len());
            events.push(TCPEvent::new(self.sock_id, TCPEventKind::Acked));
            proof {
                assert(oq.subrange(k, oq.len() as int)[0] == oq[k]);
                assert(self.retransmission_queue@ =~= oq.subrange(k + 1, oq.len() as int));
                // the pruning spec peels exactly this head
                assert(self.retransmission_queue@ =~= prev_q.drop_first());
                assert(spec_prune(prev_q, old(self).send_param.unacked_seq, prev_w) == (
                    spec_prune(
                        self.retransmission_queue@,
                        old(self).send_param.unacked_seq,
                        self.send_param.window as int,
                    ).0,
                    spec_prune(
                        self.retransmission_queue@,
                        old(self).send_param.unacked_seq,
                        self.send_param.window as int,
                    ).1,
                    spec_prune(
                        self.retransmission_queue@,
                        old(self).send_param.unacked_seq,
                        self.send_param.window as int,
                    ).2 + 1,
                ));
                assert(events@ =~= oev + Seq::new(
                    (k + 1) as nat,
                    |x: int|
                        TCPEvent { sock_id: old(self).sock_id, kind: TCPEventKind::Acked },
                ));
            }
            proof {
                k = k + 1;
            }
        }
        proof {
            if rtx_sorted(oq) {
                assert forall|j: int|
                    0 <= j < self.retransmission_queue@.len() implies (#[trigger] self.retransmission_queue@[j]).segment.seq
                    >= self.send_param.unacked_seq by {
                    assert(self.retransmission_queue@[j] == oq[k + j]);
                    assert(oq[k].segment.seq <= oq[k + j].segment.seq);
                }
            }
        }
    }

    /// One timer pass over this connection's retransmission queue. The
    /// result is exactly `spec_timer_scan` of the queue: acknowledged head
    /// entries leave with their payload lengths credited back to the send
    /// window and one `Acked` announced each (plus `ConnectionClosed` when
    /// a FIN leaves in LAST-ACK); a head younger than the timeout stops the
    /// scan; a timed-out head below the transmission cap is retransmitted
    /// as stored, restamped to `now`, its count incremented and moved to
    /// the tail; one at the cap is dropped, announcing `ConnectionClosed`
    /// when it carried FIN in LAST-ACK, FIN-WAIT-1 or FIN-WAIT-2.
    pub fn timer_scan(&mut self, now: u64, events: &mut Vec<TCPEvent>, out: &mut Vec<Outgoing>)
        requires
            old(self).wf(),
        ensures
            final(self).wf(),
            final(self).sock_id == old(self).sock_id,
            final(self).status == old(self).status,
            final(self).recv_param == old(self).recv_param,
            final(self).recv_buffer@ == old(self).recv_buffer@,
            final(self).connection_queue@ == old(self).connection_queue@,
            final(self).listening_socket == old(self).listening_socket,
            final(self).send_param.unacked_seq == old(self).send_param.unacked_seq,
            final(self).send_param.next == old(self).send_param.next,
            final(self).send_param.initial_seq == old(self).send_param.initial_seq,
            final(self).send_param.window >= old(self).send_param.window,
            final(self).retransmission_queue@.len() <= old(self).retransmission_queue@.len(),
            forall|j: int|
                0 <= j < final(self).retransmission_queue@.len() ==> entry_from(
                    #[trigger] final(self).retransmission_queue@[j],
                    old(self).retransmission_queue@,
                ),
            final(events)@.len() >= old(events)@.len(),
            final(events)@.subrange(0, old(events)@.len() as int) == old(events)@,
            forall|j: int|
                old(events)@.len() <= j < final(events)@.len() ==> (#[trigger] final(
                    events
                )@[j]).sock_id == old(self).sock_id && (final(events)@[j].kind
                    == TCPEventKind::Acked || final(events)@[j].kind
                    == TCPEventKind::ConnectionClosed),
            old(out)@.len() <= final(out)@.len() <= old(out)@.len() + 1,
            final(out)@.subrange(0, old(out)@.len() as int) == old(out)@,
            forall|j: int|
                old(out)@.len() <= j < final(out)@.len() ==> (#[trigger] final(
                    out
                )@[j]).sock_id == old(self).sock_id && retransmission_of(
                    final(out)@[j],
                    old(self).retransmission_queue@,
                ),
            // the pass computes exactly the specified scan
            final(self).retransmission_queue@ == spec_timer_scan(
                old(self).retransmission_queue@,
                old(self).send_param.unacked_seq,
                old(self).status,
                old(self).send_param.window as int,
                old(self).sock_id,
                now,
            ).0,
            final(self).send_param.window as int == spec_timer_scan(
                old(self).retransmission_queue@,
                old(self).send_param.unacked_seq,
                old(self).status,
                old(self).send_param.window as int,
                old(self).sock_id,
                now,
            ).1,
            final(events)@ == old(events)@ + spec_timer_scan(
                old(self).retransmission_queue@,
                old(self).send_param.unacked_seq,
                old(self).status,
                old(self).send_param.window as int,
                old(self).sock_id,
                now,
            ).2,
            spec_timer_scan(
                old(self).retransmission_queue@,
                old(self).send_param.unacked_seq,
                old(self).status,
                old(self).send_param.window as int,
                old(self).sock_id,
                now,
            ).3 matches Some(e) ==> final(out)@.len() == old(out)@.len() + 1 && final(
                out
            )@.last().sock_id == old(self).sock_id && seg_matches(
                final(out)@.last().segment,
                e.segment,
            ),
            spec_timer_scan(
                old(self).retransmission_queue@,
                old(self).send_param.unacked_seq,
                old(self).status,
                old(self).send_param.window as int,
                old(self).sock_id,
                now,
            ).3 is None ==> final(out)@ == old(out)@,
    {
        let ghost oq = self.retransmission_queue@;
        let ghost oev = events@;
        let ghost oout = out@;
        let ghost u0 = self.send_param.unacked_seq;
        let ghost st0 = self.status;
        let ghost w0 = self.send_param.window as int;
        let ghost sid = self.sock_id;
        proof {
            assert forall|j: int| 0 <= j < oq.len() implies entry_from(#[trigger] oq[j], oq) by {
                assert(seg_matches(oq[j].segment, oq[j].segment));
            }
            assert(events@.subrange(0, oev.len() as int) =~= oev);
            assert(out@.subrange(0, oout.len() as int) =~= oout);
        }
        while self.retransmission_queue.len() > 0
            invariant_except_break
                out@ == oout,
                spec_timer_scan(oq, u0, st0, w0, sid, now).0 == spec_timer_scan(
                    self.retransmission_queue@,
                    u0,
                    st0,
                    self.send_param.window as int,
                    sid,
                    now,
                ).0,
                spec_timer_scan(oq, u0, st0, w0, sid, now).1 == spec_timer_scan(
                    self.retransmission_queue@,
                    u0,
                    st0,
                    self.send_param.window as int,
                    sid,
                    now,
                ).1,
                oev + spec_timer_scan(oq, u0, st0, w0, sid, now).2 == events@ + spec_timer_scan(
                    self.retransmission_queue@,
                    u0,
                    st0,
                    self.send_param.window as int,
                    sid,
                    now,
                ).2,
                spec_timer_scan(oq, u0, st0, w0, sid, now).3 == spec_timer_scan(
                    self.retransmission_queue@,
                    u0,
                    st0,
                    self.send_param.window as int,
                    sid,
                    now,
                ).3,
            invariant
                self.wf(),
                self.sock_id == old(self).sock_id,
                self.status == old(self).status,
                self.recv_param == old(self).recv_param,
                self.recv_buffer@ == old(self).recv_buffer@,
                self.connection_queue@ == old(self).connection_queue@,
                self.listening_socket == old(self).listening_socket,
                self.send_param.unacked_seq == old(self).send_param.unacked_seq,
                self.send_param.next == old(self).send_param.next,
                self.send_param.initial_seq == old(self).send_param.initial_seq,
                self.send_param.window >= old(self).send_param.window,
                oq == old(self).retransmission_queue@,
                u0 == old(self).send_param.unacked_seq,
                st0 == old(self).status,
                w0 == old(self).send_param.window as int,
                sid == old(self).sock_id,
                self.retransmission_queue@.len() <= oq.len(),
                forall|j: int|
                    0 <= j < self.retransmission_queue@.len() ==> entry_from(
                        #[trigger] self.retransmission_queue@[j],
                        oq,
                    ),
                events@.len() >= oev.len(),
                events@.subrange(0, oev.len() as int) == oev,
                forall|j: int|
                    oev.len() <= j < events@.len() ==> (#[trigger] events@[j]).sock_id
                        == old(self).sock_id && (events@[j].kind == TCPEventKind::Acked
                        || events@[j].kind == TCPEventKind::ConnectionClosed),
                out@.subrange(0, oout.len() as int) == oout,
                forall|j: int|
                    oout.len() <= j < out@.len() ==> (#[trigger] out@[j]).sock_id == old(
                        self,
                    ).sock_id && retransmission_of(out@[j], oq),
            ensures
                self.wf(),
                self.sock_id == old(self).sock_id,
                self.status == old(self).status,
                self.recv_param == old(self).recv_param,
                self.recv_buffer@ == old(self).recv_buffer@,
                self.connection_queue@ == old(self).connection_queue@,
                self.listening_socket == old(self).listening_socket,
                self.send_param.unacked_seq == old(self).send_param.unacked_seq,
                self.send_param.next == old(self).send_param.next,
                self.send_param.initial_seq == old(self).send_param.initial_seq,
                self.send_param.window >= old(self).send_param.window,
                self.retransmission_queue@.len() <= oq.len(),
                forall|j: int|
                    0 <= j < self.retransmission_queue@.len() ==> entry_from(
                        #[trigger] self.retransmission_queue@[j],
                        oq,
                    ),
                events@.len() >= oev.len(),
                events@.subrange(0, oev.len() as int) == oev,
                forall|j: int|
                    oev.len() <= j < events@.len() ==> (#[trigger] events@[j]).sock_id
                        == old(self).sock_id && (events@[j].kind == TCPEventKind::Acked
                        || events@[j].kind == TCPEventKind::ConnectionClosed),
                oout.len() <= out@.len() <= oout.len() + 1,
                out@.subrange(0, oout.len() as int) == oout,
                forall|j: int|
                    oout.len() <= j < out@.len() ==> (#[trigger] out@[j]).sock_id == old(
                        self,
                    ).sock_id && retransmission_of(out@[j], oq),
                self.retransmission_queue@ == spec_timer_scan(oq, u0, st0, w0, sid, now).0,
                self.send_param.window as int == spec_timer_scan(oq, u0, st0, w0, sid, now).1,
                events@ == oev + spec_timer_scan(oq, u0, st0, w0, sid, now).2,
                spec_timer_scan(oq, u0, st0, w0, sid, now).3 matches Some(e) ==> out@.len()
                    == oout.len() + 1 && out@.last().sock_id == old(self).sock_id && seg_matches(
                    out@.last().segment,
                    e.segment,
                ),
                spec_timer_scan(oq, u0, st0, w0, sid, now).3 is None ==> out@ == oout,
            decreases self.retransmission_queue@.len(),
        {
            let ghost prev_q = self.retransmission_queue@;
            let ghost prev_ev = events@;
            let ghost prev_w = self.send_param.window as int;
            let head_seq = self.retransmission_queue[0].segment.seq;
            if self.send_param.unacked_seq > head_seq {
                let e = self.retransmission_queue.remove(0);
                self.send_param.window = credit_window(
                    self.send_param.window,
                    e.segment.payload.len(),
                );
                events.push(TCPEvent::new(self.sock_id, TCPEventKind::Acked));
                let ghost evs: Seq<TCPEvent> = seq![
                    TCPEvent { sock_id: sid, kind: TCPEventKind::Acked },
                ];
                if e.segment.flags & tcpflags::FIN != 0 && self.status == TcpStatus::LastAck {
                    events.push(TCPEvent::new(self.sock_id, TCPEventKind::ConnectionClosed));
                    proof {
                        evs = seq![
                            TCPEvent { sock_id: sid, kind: TCPEventKind::Acked },
                            TCPEvent { sock_id: sid, kind: TCPEventKind::ConnectionClosed },
                        ];
                    }
                }
                proof {
                    assert(self.retransmission_queue@ =~= prev_q.drop_first());
                    assert(self.retransmission_queue@ =~= prev_q.subrange(
                        1,
                        prev_q.len() as int,
                    ));
                    assert forall|j: int| 0 <= j < self.retransmission_queue@.len() implies
                        entry_from(#[trigger] self.retransmission_queue@[j], oq) by {
                        assert(self.retransmission_queue@[j] == prev_q[j + 1]);
                        assert(entry_from(prev_q[j + 1], oq));
                    }
                    assert(events@.subrange(0, oev.len() as int) =~= oev);
                    // the scan spec peels exactly this acknowledged head
                    assert(spec_timer_scan(prev_q, u0, st0, prev_w, sid, now).2 =~= evs
                        + spec_timer_scan(
                        self.retransmission_queue@,
                        u0,
                        st0,
                        self.send_param.window as int,
                        sid,
                        now,
                    ).2);
                    assert(events@ =~= prev_ev + evs);
                    assert((prev_ev + evs) + spec_timer_scan(
                        self.retransmission_queue@,
                        u0,
                        st0,
                        self.send_param.window as int,
                        sid,
                        now,
                    ).2 =~= prev_ev + (evs + spec_timer_scan(
                        self.retransmission_queue@,
                        u0,
                        st0,
                        self.send_param.window as int,
                        sid,
                        now,
                    ).2));
                }
                continue ;
            }
            let t = self.retransmission_queue[0].latest_transmission_time;
            if now < t || now - t < RETRANSMISSION_TIMEOUT_MS {
                proof {
                    assert(spec_timer_scan(prev_q, u0, st0, prev_w, sid, now).0 == prev_q);
                    assert(spec_timer_scan(prev_q, u0, st0, prev_w, sid, now).1 == prev_w);
                    assert(spec_timer_scan(prev_q, u0, st0, prev_w, sid, now).2
                        =~= Seq::<TCPEvent>::empty());
                    assert(events@ =~= oev + spec_timer_scan(oq, u0, st0, w0, sid, now).2);
                }
                break ;
            }
            let cnt = self.retransmission_queue[0].transmission_count;
            if cnt < MAX_TRANSMISSION {
                let mut e = self.retransmission_queue.remove(0);
                proof {
                    assert(entry_from(prev_q[0], oq));
                }
                out.push(
                    Outgoing { sock_id: self.get_sock_id(), segment: clone_segment(&e.segment) },
                );
                e.transmission_count = cnt + 1;
                e.latest_transmission_time = now;
                self.retransmission_queue.push(e);
                proof {
                    let k = choose|k: int|
                        0 <= k < oq.len() && seg_matches(prev_q[0].segment, #[trigger] oq[k].segment)
                            && prev_q[0].transmission_count >= oq[k].transmission_count;
                    assert(seg_matches(out@.last().segment, oq[k].segment));
                    assert(oq[k].transmission_count < MAX_TRANSMISSION);
                    assert(self.retransmission_queue@.last() == spec_restamp(prev_q[0], now));
                    assert(self.retransmission_queue@ =~= prev_q.drop_first().push(
                        spec_restamp(prev_q[0], now),
                    ));
                    assert(self.retransmission_queue@ =~= prev_q.subrange(
                        1,
                        prev_q.len() as int,
                    ).push(self.retransmission_queue@.last()));
                    assert forall|j: int| 0 <= j < self.retransmission_queue@.len() implies
                        entry_from(#[trigger] self.retransmission_queue@[j], oq) by {
                        if j < self.retransmission_queue@.len() - 1 {
                            assert(self.retransmission_queue@[j] == prev_q[j + 1]);
                            assert(entry_from(prev_q[j + 1], oq));
                        } else {
                            assert(seg_matches(
                                self.retransmission_queue@[j].segment,
                                oq[k].segment,
                            ));
                        }
                    }
                    assert(out@.subrange(0, oout.len() as int) =~= oout);
                    // the scan spec restamps and emits exactly this head
                    assert(spec_timer_scan(prev_q, u0, st0, prev_w, sid, now).0
                        == prev_q.drop_first().push(spec_restamp(prev_q[0], now)));
                    assert(spec_timer_scan(prev_q, u0, st0, prev_w, sid, now).1 == prev_w);
                    assert(spec_timer_scan(prev_q, u0, st0, prev_w, sid, now).2
                        =~= Seq::<TCPEvent>::empty());
                    assert(spec_timer_scan(prev_q, u0, st0, prev_w, sid, now).3 == Some(
                        prev_q[0],
                    ));
                    assert(events@ =~= oev + spec_timer_scan(oq, u0, st0, w0, sid, now).2);
                }
                break ;
            } else {
                let e = self.retransmission_queue.remove(0);
                let ghost evs: Seq<TCPEvent> = Seq::<TCPEvent>::empty();
                if e.segment.flags & tcpflags::FIN != 0 && (self.status == TcpStatus::LastAck
                    || self.status == TcpStatus::FinWait1 || self.status == TcpStatus::FinWait2) {
                    events.push(TCPEvent::new(self.sock_id, TCPEventKind::ConnectionClosed));
                    proof {
                        evs = seq![
                            TCPEvent { sock_id: sid, kind: TCPEventKind::ConnectionClosed },
                        ];
                    }
                }
                proof {
                    assert(self.retransmission_queue@ =~= prev_q.drop_first());
                    assert(self.retransmission_queue@ =~= prev_q.subrange(
                        1,
                        prev_q.len() as int,
                    ));
                    assert forall|j: int| 0 <= j < self.retransmission_queue@.len() implies
                        entry_from(#[trigger] self.retransmission_queue@[j], oq) by {
                        assert(self.retransmission_queue@[j] == prev_q[j + 1]);
                        assert(entry_from(prev_q[j + 1], oq));
                    }
                    assert(events@.subrange(0, oev.len() as int) =~= oev);
                    assert(spec_timer_scan(prev_q, u0, st0, prev_w, sid, now).2 =~= evs
                        + spec_timer_scan(
                        self.retransmission_queue@,
                        u0,
                        st0,
                        self.send_param.window as int,
                        sid,
                        now,
                    ).2);
                    assert(events@ =~= prev_ev + evs);
                    assert((prev_ev + evs) + spec_timer_scan(
                        self.retransmission_queue@,
                        u0,
                        st0,
                        self.send_param.window as int,
                        sid,
                        now,
                    ).2 =~= prev_ev + (evs + spec_timer_scan(
                        self.retransmission_queue@,
                        u0,
                        st0,
                        self.send_param.window as int,
                        sid,
                        now,
                    ).2));
                }
            }
        }
        proof {
            if spec_timer_scan(oq, u0, st0, w0, sid, now).3 is None {
                assert(out@ =~= oout);
            }
        }
    }

    /// Whether a segment with these flags and this payload belongs on the
    /// retransmission queue: bare ACKs are not queued, anything carrying
    /// payload, SYN or FIN is.
    pub open spec fn spec_needs_retransmission(flags: u8, payload_len: int) -> bool {
        payload_len > 0 || flags & tcpflags::SYN != 0 || flags & tcpflags::FIN != 0
    }

    /// Builds an outgoing segment of this connection, advertising the current
    /// free receive window, and appends it to the retransmission queue when
    /// it carries payload, SYN or FIN.
    pub fn send_tcp_packet(
        &mut self,
        seq: u32,
        ack: u32,
        flags: u8,
        payload: Vec<u8>,
        now: u64,
    ) -> (seg: Segment)
        ensures
            seg.src_port == final(self).sock_id.local_port,
            seg.dst_port == final(self).sock_id.remote_port,
            seg.seq == seq && seg.ack == ack && seg.flags == flags,
            seg.window == final(self).recv_param.window,
            seg.payload@ == payload@,
            final(self).sock_id == old(self).sock_id,
            final(self).status == old(self).status,
            final(self).send_param == old(self).send_param,
            final(self).recv_param == old(self).recv_param,
            final(self).recv_buffer@ == old(self).recv_buffer@,
            final(self).connection_queue@ == old(self).connection_queue@,
            final(self).listening_socket == old(self).listening_socket,
            Self::spec_needs_retransmission(flags, payload@.len() as int) ==> {
                &&& final(self).retransmission_queue@.len()
                    == old(self).retransmission_queue@.len() + 1
                &&& final(self).retransmission_queue@.subrange(
                    0,
                    old(self).retransmission_queue@.len() as int,
                ) == old(self).retransmission_queue@
                &&& final(self).retransmission_queue@.last().segment.src_port == seg.src_port
                &&& final(self).retransmission_queue@.last().segment.dst_port == seg.dst_port
                &&& final(self).retransmission_queue@.last().segment.seq == seq
                &&& final(self).retransmission_queue@.last().segment.ack == ack
                &&& final(self).retransmission_queue@.last().segment.flags == flags
                &&& final(self).retransmission_queue@.last().segment.window
                    == final(self).recv_param.window
                &&& final(self).retransmission_queue@.last().segment.payload@ == payload@
                &&& final(self).retransmission_queue@.last().latest_transmission_time == now
                &&& final(self).retransmission_queue@.last().transmission_count == 1
            },
            !Self::spec_needs_retransmission(flags, payload@.len() as int)
                ==> final(self).retransmission_queue@ == old(self).retransmission_queue@,
            old(self).wf() ==> final(self).wf(),
    {
        let needs_queue = payload.len() > 0 || flags & tcpflags::SYN != 0
            || flags & tcpflags::FIN != 0;
        if needs_queue {
            let stored = Segment {
                src_port: self.sock_id.local_port,
                dst_port: self.sock_id.remote_port,
                seq,
                ack,
                flags,
                window: self.recv_param.window,
                payload: clone_vec_u8(&payload),
            };
            self.retransmission_queue.push(RetransmissionQueueEntry {
                segment: stored,
                latest_transmission_time: now,
                transmission_count: 1,
            });
        }
        Segment {
            src_port: self.sock_id.local_port,
            dst_port: self.sock_id.remote_port,
            seq,
            ack,
            flags,
            window: self.recv_param.window,
            payload,
        }
    }
}

} // verus!
