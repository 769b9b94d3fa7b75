use toytcp::socket::{Socket, MAX_TRANSMISSION, SOCKET_BUFFER_SIZE};
use toytcp::tcp::TCP;
use toytcp::types::{CloseOutcome, RecvOutcome, Segment, SockID, TCPEventKind, TcpError, TcpStatus};

const ADDR_A: u32 = 0x0a00_0001;
const ADDR_B: u32 = 0x0a00_0002;
const FIN: u8 = 1;
const SYN: u8 = 2;
const ACK: u8 = 16;

fn seg(src_port: u16, dst_port: u16, seq: u32, ack: u32, flags: u8, window: u16) -> Segment {
    Segment { src_port, dst_port, seq, ack, flags, window, payload: Vec::new() }
}

fn seg_with(
    src_port: u16,
    dst_port: u16,
    seq: u32,
    ack: u32,
    flags: u8,
    window: u16,
    payload: Vec<u8>,
) -> Segment {
    Segment { src_port, dst_port, seq, ack, flags, window, payload }
}

fn established(local_port: u16, remote_port: u16, snd_next: u32, window: u16, rcv_next: u32) -> (TCP, SockID) {
    let mut t = TCP::new();
    let mut s = Socket::new(ADDR_A, ADDR_B, local_port, remote_port, TcpStatus::Established);
    s.send_param.initial_seq = snd_next.wrapping_sub(1);
    s.send_param.unacked_seq = snd_next;
    s.send_param.next = snd_next;
    s.send_param.window = window;
    s.recv_param.initial_seq = rcv_next.wrapping_sub(1);
    s.recv_param.next = rcv_next;
    s.recv_param.tail = rcv_next;
    let id = s.get_sock_id();
    t.sockets.push(s);
    (t, id)
}

fn bytes(n: usize, v: u8) -> Vec<u8> {
    let mut b = Vec::new();
    for _ in 0..n {
        b.push(v);
    }
    b
}

#[test]
fn handshake() {
    let mut client = TCP::new();
    let mut server = TCP::new();
    let lid = server.listen(ADDR_B, 8080);
    assert_eq!(lid.local_addr, ADDR_B);
    assert_eq!(lid.remote_addr, 0);
    assert_eq!(lid.remote_port, 0);

    let (cid, syn_out) = client.connect_with(ADDR_A, ADDR_B, 40001, 8080, 1000, 0);
    assert_eq!(syn_out.segment.seq, 1000);
    assert_eq!(syn_out.segment.flags, SYN);
    assert_eq!(syn_out.segment.src_port, 40001);

    let mut out = Vec::new();
    server
        .listen_handler_with(lid, &syn_out.segment, ADDR_A, 7000, 0, &mut out)
        .unwrap();
    assert_eq!(out.len(), 1);
    let synack = &out[0];
    assert_eq!(synack.segment.seq, 7000);
    assert_eq!(synack.segment.ack, 1001);
    assert_eq!(synack.segment.flags, SYN | ACK);
    let child_id = synack.sock_id;
    // mirror four-tuples
    assert_eq!(child_id.local_addr, cid.remote_addr);
    assert_eq!(child_id.remote_addr, cid.local_addr);
    assert_eq!(child_id.local_port, cid.remote_port);
    assert_eq!(child_id.remote_port, cid.local_port);

    let mut ev = Vec::new();
    let mut out2 = Vec::new();
    client
        .synsent_handler(cid, &synack.segment, 0, &mut ev, &mut out2)
        .unwrap();
    let ci = client.find_socket(cid).unwrap();
    assert_eq!(client.sockets[ci].status, TcpStatus::Established);
    assert_eq!(out2.len(), 1);
    assert_eq!(out2[0].segment.seq, 1001);
    assert_eq!(out2[0].segment.ack, 7001);
    assert_eq!(out2[0].segment.flags, ACK);
    assert_eq!(ev.len(), 1);
    assert_eq!(ev[0].kind, TCPEventKind::ConnectionCompleted);
    assert!(client.try_consume_event(cid, TCPEventKind::ConnectionCompleted));

    let mut ev2 = Vec::new();
    server.synrcvd_handler(child_id, &out2[0].segment, &mut ev2).unwrap();
    let si = server.find_socket(child_id).unwrap();
    assert_eq!(server.sockets[si].status, TcpStatus::Established);
    assert_eq!(ev2.len(), 1);
    assert_eq!(ev2[0].sock_id, lid);
    assert_eq!(ev2[0].kind, TCPEventKind::ConnectionCompleted);
    assert!(server.try_consume_event(lid, TCPEventKind::ConnectionCompleted));
    assert_eq!(server.accept(lid).unwrap(), child_id);

    // the stream orderings hold on both sides
    assert!(client.sockets[ci].send_param.unacked_seq <= client.sockets[ci].send_param.next);
    assert!(server.sockets[si].recv_param.next <= server.sockets[si].recv_param.tail);
}

#[test]
fn small_send() {
    let (mut t, id) = established(40001, 8080, 1001, 4096, 7001);
    let mut buffer = Vec::new();
    for i in 0..3000usize {
        buffer.push((i % 251) as u8);
    }
    let mut out = Vec::new();
    let nc = t.send(id, &buffer, 0, 0, &mut out).unwrap();
    assert_eq!(nc, 3000);
    assert_eq!(out.len(), 3);
    assert_eq!(out[0].segment.payload.len(), 1460);
    assert_eq!(out[1].segment.payload.len(), 1460);
    assert_eq!(out[2].segment.payload.len(), 80);
    assert_eq!(out[0].segment.seq, 1001);
    assert_eq!(out[1].segment.seq, 2461);
    assert_eq!(out[2].segment.seq, 3921);
    assert_eq!(out[0].segment.payload[..], buffer[0..1460]);
    assert_eq!(out[2].segment.payload[..], buffer[2920..3000]);
    let i = t.find_socket(id).unwrap();
    assert_eq!(t.sockets[i].send_param.window, 4096 - 3000);
    assert_eq!(t.sockets[i].send_param.next, 4001);
    assert_eq!(t.sockets[i].retransmission_queue.len(), 3);

    // all three acknowledged: window returns to 4096, three Acked events
    let ackseg = seg(8080, 40001, 7001, 4001, ACK, 4096);
    let mut ev = Vec::new();
    let mut out2 = Vec::new();
    t.established_handler(id, &ackseg, 0, &mut ev, &mut out2).unwrap();
    let i = t.find_socket(id).unwrap();
    assert_eq!(t.sockets[i].send_param.unacked_seq, 4001);
    assert_eq!(t.sockets[i].send_param.window, 4096);
    assert_eq!(t.sockets[i].retransmission_queue.len(), 0);
    assert_eq!(ev.len(), 3);
    for e in &ev {
        assert_eq!(e.kind, TCPEventKind::Acked);
        assert_eq!(e.sock_id, id);
    }
    assert!(out2.is_empty());
}

#[test]
fn window_stall() {
    let (mut t, id) = established(40001, 8080, 1001, 500, 7001);
    let buffer = bytes(1200, 9);
    let mut out = Vec::new();
    // 500 bytes go out, then the window is exhausted and send parks
    let nc = t.send(id, &buffer, 0, 0, &mut out).unwrap();
    assert_eq!(nc, 500);
    assert_eq!(out.len(), 1);
    assert_eq!(out[0].segment.payload.len(), 500);
    let i = t.find_socket(id).unwrap();
    assert_eq!(t.sockets[i].send_param.window, 0);

    // the ACK prunes the queue and credits the window; send resumes
    let mut ev = Vec::new();
    let mut outr = Vec::new();
    t.established_handler(id, &seg(8080, 40001, 7001, 1501, ACK, 0), 0, &mut ev, &mut outr)
        .unwrap();
    assert_eq!(ev.len(), 1);
    assert_eq!(ev[0].kind, TCPEventKind::Acked);
    assert!(t.try_consume_event(id, TCPEventKind::Acked));
    let i = t.find_socket(id).unwrap();
    assert_eq!(t.sockets[i].send_param.window, 500);

    let mut out2 = Vec::new();
    let nc2 = t.send(id, &buffer, nc, 0, &mut out2).unwrap();
    assert_eq!(nc2, 1000);
    let mut ev2 = Vec::new();
    let mut outr2 = Vec::new();
    t.established_handler(id, &seg(8080, 40001, 7001, 2001, ACK, 0), 0, &mut ev2, &mut outr2)
        .unwrap();
    let mut out3 = Vec::new();
    let nc3 = t.send(id, &buffer, nc2, 0, &mut out3).unwrap();
    assert_eq!(nc3, 1200);
    assert_eq!(out3[0].segment.payload.len(), 200);
}

#[test]
fn out_of_order_receive() {
    let (mut t, id) = established(40001, 8080, 1001, 100, 5000);
    let mut ev = Vec::new();
    let mut out = Vec::new();

    // 100 bytes at 5100: a hole stays open, the in-order point does not move
    let s1 = seg_with(8080, 40001, 5100, 1001, ACK, 0, bytes(100, 1));
    t.established_handler(id, &s1, 0, &mut ev, &mut out).unwrap();
    let i = t.find_socket(id).unwrap();
    assert_eq!(t.sockets[i].recv_param.next, 5000);
    assert_eq!(t.sockets[i].recv_param.tail, 5200);
    assert_eq!(t.sockets[i].recv_param.window, SOCKET_BUFFER_SIZE as u16);
    assert_eq!(ev.len(), 1);
    assert_eq!(ev[0].kind, TCPEventKind::DataArrived);
    assert_eq!(out.len(), 1);
    assert_eq!(out[0].segment.ack, 5000);

    // 100 bytes at 5000 close the gap: the in-order point jumps to the tail
    let s2 = seg_with(8080, 40001, 5000, 1001, ACK, 0, bytes(100, 2));
    t.established_handler(id, &s2, 0, &mut ev, &mut out).unwrap();
    let i = t.find_socket(id).unwrap();
    assert_eq!(t.sockets[i].recv_param.next, 5200);
    assert_eq!(t.sockets[i].recv_param.tail, 5200);
    assert_eq!(t.sockets[i].recv_param.window, SOCKET_BUFFER_SIZE as u16 - 200);
    assert_eq!(ev.len(), 2);
    assert_eq!(ev[1].kind, TCPEventKind::DataArrived);
    assert_eq!(out.len(), 2);
    assert_eq!(out[1].segment.ack, 5200);

    // a stale segment below the in-order point is dropped silently
    let s3 = seg_with(8080, 40001, 4900, 1001, ACK, 0, bytes(50, 3));
    t.established_handler(id, &s3, 0, &mut ev, &mut out).unwrap();
    let i = t.find_socket(id).unwrap();
    assert_eq!(t.sockets[i].recv_param.next, 5200);
    assert_eq!(ev.len(), 2);
    assert_eq!(out.len(), 2);

    // the stream is delivered in sequence order with its content intact
    match t.recv(id, 500).unwrap() {
        RecvOutcome::Data(v) => {
            assert_eq!(v.len(), 200);
            for k in 0..100 {
                assert_eq!(v[k], 2);
            }
            for k in 100..200 {
                assert_eq!(v[k], 1);
            }
        }
        RecvOutcome::WouldBlock => panic!("data was buffered"),
    }
    let i = t.find_socket(id).unwrap();
    assert_eq!(t.sockets[i].recv_param.window, SOCKET_BUFFER_SIZE as u16);
}

#[test]
fn recv_blocks_without_data() {
    let (mut t, id) = established(40001, 8080, 1001, 100, 5000);
    match t.recv(id, 64).unwrap() {
        RecvOutcome::WouldBlock => {}
        RecvOutcome::Data(_) => panic!("nothing was buffered"),
    }
}

#[test]
fn passive_close() {
    let (mut t, id) = established(40001, 8080, 1001, 100, 9000);
    let mut ev = Vec::new();
    let mut out = Vec::new();

    // peer's FIN: ACK it, go to CLOSE-WAIT, wake a blocked receive
    let fin = seg(8080, 40001, 9000, 1001, FIN | ACK, 0);
    t.established_handler(id, &fin, 0, &mut ev, &mut out).unwrap();
    let i = t.find_socket(id).unwrap();
    assert_eq!(t.sockets[i].status, TcpStatus::CloseWait);
    assert_eq!(t.sockets[i].recv_param.next, 9001);
    assert_eq!(out.len(), 1);
    assert_eq!(out[0].segment.ack, 9001);
    assert_eq!(out[0].segment.flags, ACK);
    assert_eq!(ev.last().unwrap().kind, TCPEventKind::DataArrived);

    // a receive now reports the end of the stream
    match t.recv(id, 64).unwrap() {
        RecvOutcome::Data(v) => assert_eq!(v.len(), 0),
        RecvOutcome::WouldBlock => panic!("peer finished; expected empty data"),
    }

    // closing emits FIN|ACK and moves to LAST-ACK
    let mut out2 = Vec::new();
    let outcome = t.close(id, 0, &mut out2).unwrap();
    assert_eq!(outcome, CloseOutcome::AwaitClose);
    let i = t.find_socket(id).unwrap();
    assert_eq!(t.sockets[i].status, TcpStatus::LastAck);
    assert_eq!(t.sockets[i].send_param.next, 1002);
    assert_eq!(out2.len(), 1);
    assert_eq!(out2[0].segment.flags, FIN | ACK);
    assert_eq!(out2[0].segment.seq, 1001);

    // the peer's final ACK is recorded, and the next timer pass observes it
    t.close_handler(id, &seg(8080, 40001, 9001, 1002, ACK, 0)).unwrap();
    let i = t.find_socket(id).unwrap();
    assert_eq!(t.sockets[i].send_param.unacked_seq, 1002);
    let mut ev3 = Vec::new();
    let mut out3 = Vec::new();
    t.timer_tick(0, &mut ev3, &mut out3);
    assert!(ev3.iter().any(|e| e.kind == TCPEventKind::ConnectionClosed && e.sock_id == id));
    assert!(t.try_consume_event(id, TCPEventKind::ConnectionClosed));
    assert!(t.remove_sock(id));
    assert!(t.find_socket(id).is_none());
}

#[test]
fn both_sides_close() {
    let mut client = TCP::new();
    let mut server = TCP::new();
    let lid = server.listen(ADDR_B, 8080);
    let (cid, syn_out) = client.connect_with(ADDR_A, ADDR_B, 40001, 8080, 1000, 0);
    let mut out = Vec::new();
    server
        .listen_handler_with(lid, &syn_out.segment, ADDR_A, 7000, 0, &mut out)
        .unwrap();
    let child_id = out[0].sock_id;
    let mut ev = Vec::new();
    let mut out2 = Vec::new();
    client
        .synsent_handler(cid, &out[0].segment, 0, &mut ev, &mut out2)
        .unwrap();
    let mut ev2 = Vec::new();
    server.synrcvd_handler(child_id, &out2[0].segment, &mut ev2).unwrap();

    // client closes: FIN travels to the server, whose ACK travels back
    let mut cfin = Vec::new();
    assert_eq!(client.close(cid, 0, &mut cfin).unwrap(), CloseOutcome::AwaitClose);
    let mut sev = Vec::new();
    let mut sack = Vec::new();
    server
        .established_handler(child_id, &cfin[0].segment, 0, &mut sev, &mut sack)
        .unwrap();
    let si = server.find_socket(child_id).unwrap();
    assert_eq!(server.sockets[si].status, TcpStatus::CloseWait);
    let mut cev = Vec::new();
    let mut cout = Vec::new();
    client
        .finwait_handler(cid, &sack[0].segment, 0, &mut cev, &mut cout)
        .unwrap();
    let ci = client.find_socket(cid).unwrap();
    assert_eq!(client.sockets[ci].status, TcpStatus::FinWait2);

    // server closes in turn; its FIN reaches the client in FIN-WAIT-2
    let mut sfin = Vec::new();
    assert_eq!(server.close(child_id, 0, &mut sfin).unwrap(), CloseOutcome::AwaitClose);
    let mut cev2 = Vec::new();
    let mut cack = Vec::new();
    client
        .finwait_handler(cid, &sfin[0].segment, 0, &mut cev2, &mut cack)
        .unwrap();
    assert!(cev2.iter().any(|e| e.kind == TCPEventKind::ConnectionClosed));
    assert!(client.remove_sock(cid));

    // the client's last ACK reaches the server; the timer observes it
    server.close_handler(child_id, &cack[0].segment).unwrap();
    let mut sev2 = Vec::new();
    let mut sout2 = Vec::new();
    server.timer_tick(0, &mut sev2, &mut sout2);
    assert!(sev2.iter().any(|e| e.kind == TCPEventKind::ConnectionClosed && e.sock_id == child_id));
    assert!(server.remove_sock(child_id));

    // the listener leaves at once, without a segment
    let mut lout = Vec::new();
    assert_eq!(server.close(lid, 0, &mut lout).unwrap(), CloseOutcome::Removed);
    assert!(lout.is_empty());
    assert!(client.find_socket(cid).is_none());
    assert!(server.find_socket(child_id).is_none());
    assert!(server.find_socket(lid).is_none());
}

#[test]
fn retransmit_then_give_up() {
    let (mut t, id) = established(40001, 8080, 1001, 100, 9000);
    let mut out = Vec::new();
    // the FIN of a close is queued; no ACK ever arrives
    assert_eq!(t.close(id, 0, &mut out).unwrap(), CloseOutcome::AwaitClose);
    let i = t.find_socket(id).unwrap();
    // the peer's ACK never comes; model the LAST-ACK side of the teardown
    t.sockets[i].status = TcpStatus::LastAck;
    assert_eq!(t.sockets[i].retransmission_queue.len(), 1);

    // before the timeout nothing happens
    let mut ev = Vec::new();
    let mut o = Vec::new();
    t.timer_tick(1000, &mut ev, &mut o);
    assert!(o.is_empty());

    // each timeout retransmits the stored bytes, up to the cap
    let mut now: u64 = 0;
    for count in 2..=MAX_TRANSMISSION {
        now += 3000;
        let mut ev_k = Vec::new();
        let mut o_k = Vec::new();
        t.timer_tick(now, &mut ev_k, &mut o_k);
        assert_eq!(o_k.len(), 1);
        assert_eq!(o_k[0].segment.flags, FIN | ACK);
        let i = t.find_socket(id).unwrap();
        assert_eq!(t.sockets[i].retransmission_queue[0].transmission_count, count);
    }

    // at the cap the entry is dropped and ConnectionClosed is published
    now += 3000;
    let mut ev_end = Vec::new();
    let mut o_end = Vec::new();
    t.timer_tick(now, &mut ev_end, &mut o_end);
    assert!(o_end.is_empty());
    let i = t.find_socket(id).unwrap();
    assert_eq!(t.sockets[i].retransmission_queue.len(), 0);
    assert!(ev_end.iter().any(|e| e.kind == TCPEventKind::ConnectionClosed));
}

#[test]
fn accept_errors() {
    let mut t = TCP::new();
    let ghost_id = SockID { local_addr: ADDR_A, remote_addr: 0, local_port: 1, remote_port: 0 };
    assert_eq!(t.accept(ghost_id), Err(TcpError::NoSuchSocket(ghost_id)));
    let lid = t.listen(ADDR_B, 8080);
    assert_eq!(t.accept(lid), Err(TcpError::NoPendingConnection(lid)));
}

#[test]
fn unknown_socket_errors() {
    let mut t = TCP::new();
    let id = SockID { local_addr: ADDR_A, remote_addr: ADDR_B, local_port: 1, remote_port: 2 };
    assert!(matches!(t.recv(id, 8), Err(TcpError::NoSuchSocket(_))));
    let b = bytes(4, 0);
    let mut out = Vec::new();
    assert!(matches!(t.send(id, &b, 0, 0, &mut out), Err(TcpError::NoSuchSocket(_))));
    assert!(matches!(t.close(id, 0, &mut out), Err(TcpError::NoSuchSocket(_))));
}

#[test]
fn connect_draws_valid_port_and_sequence() {
    let mut t = TCP::new();
    let (id, syn) = t.connect(ADDR_A, ADDR_B, 8080, 0).unwrap();
    assert!(40000 <= id.local_port && id.local_port < 60000);
    assert_eq!(syn.segment.flags, SYN);
    assert!(1 <= syn.segment.seq && syn.segment.seq < 0x8000_0000);
    assert_eq!(syn.segment.ack, 0);
    let i = t.find_socket(id).unwrap();
    assert_eq!(t.sockets[i].status, TcpStatus::SynSent);
    assert_eq!(t.sockets[i].send_param.next, syn.segment.seq + 1);
}

#[test]
fn event_mailbox() {
    let mut t = TCP::new();
    let id = SockID { local_addr: ADDR_A, remote_addr: ADDR_B, local_port: 1, remote_port: 2 };
    t.publish_event(id, TCPEventKind::Acked);
    assert!(!t.try_consume_event(id, TCPEventKind::DataArrived));
    assert!(t.try_consume_event(id, TCPEventKind::Acked));
    assert!(!t.try_consume_event(id, TCPEventKind::Acked));
}

#[test]
fn parse_rejects_short_and_reads_fields() {
    let mut raw: Vec<u8> = Vec::new();
    // source 0x9c45 (40005), destination 0x1f90 (8080)
    for b in [
        0x9c, 0x45, 0x1f, 0x90, // ports
        0x00, 0x00, 0x03, 0xe8, // sequence 1000
        0x00, 0x00, 0x1b, 0x59, // acknowledgement 7001
        0x50, 0x12, // data offset 5, flags SYN|ACK
        0x10, 0x00, // window 4096
        0x00, 0x00, 0x00, 0x00, // checksum, urgent pointer
        0xaa, 0xbb, 0xcc, // payload
    ] {
        raw.push(b);
    }
    let seg = toytcp::parse::parse_tcp_segment(&raw).unwrap();
    assert_eq!(seg.src_port, 40005);
    assert_eq!(seg.dst_port, 8080);
    assert_eq!(seg.seq, 1000);
    assert_eq!(seg.ack, 7001);
    assert_eq!(seg.flags, SYN | ACK);
    assert_eq!(seg.window, 4096);
    assert_eq!(seg.payload, vec![0xaa, 0xbb, 0xcc]);

    let short = bytes(19, 0);
    assert!(toytcp::parse::parse_tcp_segment(&short).is_none());
}

#[test]
fn dispatch_routes_by_four_tuple() {
    let mut server = TCP::new();
    let lid = server.listen(ADDR_B, 8080);
    // a raw SYN from 10.0.0.1:40005, seq 1000, window 4096
    let mut raw: Vec<u8> = Vec::new();
    for b in [
        0x9c, 0x45, 0x1f, 0x90, 0x00, 0x00, 0x03, 0xe8, 0x00, 0x00, 0x00, 0x00, 0x50, 0x02,
        0x10, 0x00, 0x00, 0x00, 0x00, 0x00,
    ] {
        raw.push(b);
    }
    let mut ev = Vec::new();
    let mut out = Vec::new();
    server
        .on_segment(ADDR_B, ADDR_A, &raw, true, 0, &mut ev, &mut out)
        .unwrap();
    assert_eq!(out.len(), 1);
    assert_eq!(out[0].segment.flags, SYN | ACK);
    assert_eq!(out[0].segment.ack, 1001);
    let child = out[0].sock_id;
    assert_eq!(child.remote_port, 40005);
    assert!(server.find_socket(child).is_some());
    assert!(server.find_socket(lid).is_some());

    // a failed checksum drops the segment before any handler runs
    let mut ev2 = Vec::new();
    let mut out2 = Vec::new();
    let before = server.sockets.len();
    server
        .on_segment(ADDR_B, ADDR_A, &raw, false, 0, &mut ev2, &mut out2)
        .unwrap();
    assert_eq!(server.sockets.len(), before);
    assert!(out2.is_empty());
}

#[test]
fn zero_window_parks_send() {
    let (mut t, id) = established(40001, 8080, 1001, 0, 7001);
    let buffer = bytes(100, 7);
    let mut out = Vec::new();
    let nc = t.send(id, &buffer, 0, 0, &mut out).unwrap();
    assert_eq!(nc, 0);
    assert!(out.is_empty());
}

#[test]
fn fin_below_buffered_tail_is_ignored() {
    // a hole is open: 100 bytes buffered at 5100 while next is still 5000
    let (mut t, id) = established(40001, 8080, 1001, 100, 5000);
    let mut ev = Vec::new();
    let mut out = Vec::new();
    let s1 = seg_with(8080, 40001, 5100, 1001, ACK, 0, bytes(100, 1));
    t.established_handler(id, &s1, 0, &mut ev, &mut out).unwrap();

    // a FIN numbered below the buffered tail would tear the stream; it is
    // not consumed and the connection stays ESTABLISHED
    let fin = seg(8080, 40001, 5000, 1001, FIN | ACK, 0);
    t.established_handler(id, &fin, 0, &mut ev, &mut out).unwrap();
    let i = t.find_socket(id).unwrap();
    assert_eq!(t.sockets[i].status, TcpStatus::Established);
    assert_eq!(t.sockets[i].recv_param.next, 5000);

    // one at the tail is consumed as usual
    let fin2 = seg(8080, 40001, 5200, 1001, FIN | ACK, 0);
    t.established_handler(id, &fin2, 0, &mut ev, &mut out).unwrap();
    let i = t.find_socket(id).unwrap();
    assert_eq!(t.sockets[i].status, TcpStatus::CloseWait);
    assert_eq!(t.sockets[i].recv_param.next, 5201);
}

#[test]
fn listen_then_close_removes_listener_silently() {
    let mut t = TCP::new();
    let lid = t.listen(ADDR_B, 8080);
    let mut out = Vec::new();
    assert_eq!(t.close(lid, 0, &mut out).unwrap(), CloseOutcome::Removed);
    assert!(out.is_empty());
    assert!(t.find_socket(lid).is_none());
}

#[test]
fn partial_read_credits_only_what_left() {
    let (mut t, id) = established(40001, 8080, 1001, 100, 5000);
    let mut ev = Vec::new();
    let mut out = Vec::new();
    let s1 = seg_with(8080, 40001, 5000, 1001, ACK, 0, bytes(200, 4));
    t.established_handler(id, &s1, 0, &mut ev, &mut out).unwrap();
    match t.recv(id, 50).unwrap() {
        RecvOutcome::Data(v) => {
            assert_eq!(v.len(), 50);
            assert!(v.iter().all(|b| *b == 4));
        }
        RecvOutcome::WouldBlock => panic!("bytes were buffered"),
    }
    let i = t.find_socket(id).unwrap();
    assert_eq!(t.sockets[i].recv_param.window, SOCKET_BUFFER_SIZE as u16 - 150);
    match t.recv(id, 500).unwrap() {
        RecvOutcome::Data(v) => assert_eq!(v.len(), 150),
        RecvOutcome::WouldBlock => panic!("bytes were buffered"),
    }
}

#[test]
fn segment_without_ack_flag_is_dropped() {
    // 1000 bytes are in flight, so an acknowledgement value of 1500 would
    // be acceptable -- but without the ACK flag the segment must change
    // nothing at all, accounting included
    let (mut t, id) = established(40001, 8080, 1001, 100, 5000);
    let i = t.find_socket(id).unwrap();
    t.sockets[i].send_param.next = 2001;
    let mut ev = Vec::new();
    let mut out = Vec::new();
    let s1 = seg_with(8080, 40001, 5000, 1500, 0, 0, bytes(10, 5));
    t.established_handler(id, &s1, 0, &mut ev, &mut out).unwrap();
    let i = t.find_socket(id).unwrap();
    assert_eq!(t.sockets[i].send_param.unacked_seq, 1001);
    assert_eq!(t.sockets[i].recv_param.next, 5000);
    assert_eq!(t.sockets[i].recv_param.window, SOCKET_BUFFER_SIZE as u16);
    assert!(out.is_empty());
    assert!(ev.is_empty());
}
