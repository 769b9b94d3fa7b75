use vstd::prelude::*;

verus! {

// An IPv4 address is carried as its 32-bit value; the surrounding program
// converts from and to its dotted form at the transport boundary.
pub const UNDETERMINED_IP_ADDR: u32 = 0;
pub const UNDETERMINED_PORT: u16 = 0;

/// Connection identifier: the four-tuple that keys the registry.
/// Listening sockets use the sentinel zero values for the remote endpoint.
#[derive(Clone, Copy, PartialEq, Eq, Structural, Debug)]
pub struct SockID {
    pub local_addr: u32,
    pub remote_addr: u32,
    pub local_port: u16,
    pub remote_port: u16,
}

/// The modelled subset of the TCP connection states. TIME-WAIT is carried
/// for completeness but never entered: the teardown removes a connection
/// once `ConnectionClosed` is observed, without the bounded linger.
#[derive(Clone, Copy, PartialEq, Eq, Structural, Debug)]
pub enum TcpStatus {
    Listen,
    SynSent,
    SynRcvd,
    Established,
    FinWait1,
    FinWait2,
    TimeWait,
    CloseWait,
    LastAck,
}

/// The kinds of events the receive and timer paths publish and the blocking
/// user calls wait for.
#[derive(Clone, Copy, PartialEq, Eq, Structural, Debug)]
pub enum TCPEventKind {
    ConnectionCompleted,
    Acked,
    DataArrived,
    ConnectionClosed,
}

/// One published event: which connection, and what happened to it.
#[derive(Clone, Copy, PartialEq, Eq, Structural, Debug)]
pub struct TCPEvent {
    pub sock_id: SockID,
    pub kind: TCPEventKind,
}

impl TCPEvent {
    pub fn new(sock_id: SockID, kind: TCPEventKind) -> (r: Self)
        ensures
            r == (TCPEvent { sock_id, kind }),
    {
        Self { sock_id, kind }
    }
}

/// A decoded TCP segment. Encoding to wire bytes, and the checksum over the
/// IPv4 pseudo-header, are the codec's concern and happen outside the core.
pub struct Segment {
    pub src_port: u16,
    pub dst_port: u16,
    pub seq: u32,
    pub ack: u32,
    pub flags: u8,
    pub window: u16,
    pub payload: Vec<u8>,
}

/// Field-wise agreement of two segments, the payloads compared by content.
pub open spec fn seg_matches(a: Segment, b: Segment) -> bool {
    &&& a.src_port == b.src_port
    &&& a.dst_port == b.dst_port
    &&& a.seq == b.seq
    &&& a.ack == b.ack
    &&& a.flags == b.flags
    &&& a.window == b.window
    &&& a.payload@ == b.payload@
}

/// Copies a byte vector.
pub fn clone_vec_u8(v: &Vec<u8>) -> (r: Vec<u8>)
    ensures
        r@ == v@,
{
    let mut r: Vec<u8> = Vec::new();
    let mut i: usize = 0;
    while i < v.len()
        invariant
            i <= v@.len(),
            r@ == v@.subrange(0, i as int),
        decreases v@.len() - i,
    {
        r.push(v[i]);
        i += 1;
        proof {
            assert(r@ =~= v@.subrange(0, i as int));
        }
    }
    proof {
        assert(r@ =~= v@);
    }
    r
}

/// Copies a segment, payload included.
pub fn clone_segment(s: &Segment) -> (r: Segment)
    ensures
        seg_matches(r, *s),
{
    Segment {
        src_port: s.src_port,
        dst_port: s.dst_port,
        seq: s.seq,
        ack: s.ack,
        flags: s.flags,
        window: s.window,
        payload: clone_vec_u8(&s.payload),
    }
}

/// A segment ready for transmission, together with the connection it belongs
/// to; the four-tuple carries the destination address the codec needs.
pub struct Outgoing {
    pub sock_id: SockID,
    pub segment: Segment,
}

/// What a receive attempt yields: bytes (empty exactly when the peer has
/// finished sending and everything was delivered), or the advice to park on
/// `DataArrived` and try again.
pub enum RecvOutcome {
    WouldBlock,
    Data(Vec<u8>),
}

/// What a close did: the caller must park on `ConnectionClosed` and then
/// remove the connection; the listener was removed at once; or the
/// connection was in no state that awaits a closing handshake.
#[derive(Clone, Copy, PartialEq, Eq, Structural, Debug)]
pub enum CloseOutcome {
    AwaitClose,
    Removed,
    Silent,
}

/// Copies `v[from..to]` into a fresh vector.
pub fn copy_range(v: &Vec<u8>, from: usize, to: usize) -> (r: Vec<u8>)
    requires
        from <= to <= v@.len(),
    ensures
        r@ == v@.subrange(from as int, to as int),
{
    let mut r: Vec<u8> = Vec::new();
    let mut i: usize = from;
    while i < to
        invariant
            from <= i <= to <= v@.len(),
            r@ == v@.subrange(from as int, i as int),
        decreases to - i,
    {
        r.push(v[i]);
        i += 1;
        proof {
            assert(r@ =~= v@.subrange(from as int, i as int));
        }
    }
    r
}

/// User-facing failures. Every error that concerns a particular connection
/// carries the identifier of the failing connection.
#[derive(Clone, Copy, PartialEq, Eq, Structural, Debug)]
pub enum TcpError {
    /// The operation referenced a SockID that is not in the registry.
    NoSuchSocket(SockID),
    /// `accept` woke up but the listener's acceptance queue was empty.
    NoPendingConnection(SockID),
    /// Every port of the ephemeral range is taken by a registered socket.
    NoAvailablePort,
}

} // verus!
