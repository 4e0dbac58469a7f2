//! The normalized view of one captured TCP packet: IP endpoints, TCP header
//! fields, and the payload bytes, together with the flow identity used to
//! tell the two directions of a conversation apart.

use vstd::prelude::*;

verus! {

/// An IP address, version 4 or 6, held as a plain integer.
#[derive(Clone, Copy, Debug, PartialEq, Eq, Structural, Hash, PartialOrd, Ord)]
pub enum IpAddress {
    V4(u32),
    V6(u128),
}

/// Source and destination IP addresses of a packet.
#[derive(Clone, Copy, Debug, PartialEq, Eq, Structural)]
pub struct IpLayer {
    pub src: IpAddress,
    pub dst: IpAddress,
}

/// The four TCP flags the sensor consults; the rest are ignored.
#[derive(Clone, Copy, Debug, Default, PartialEq, Eq, Structural)]
pub struct TcpFlags {
    pub syn: bool,
    pub ack: bool,
    pub fin: bool,
    pub rst: bool,
}

/// The TCP header fields the sensor consults.
#[derive(Clone, Copy, Debug, Default, PartialEq, Eq, Structural)]
pub struct TcpLayer {
    pub src: u16,
    pub dst: u16,
    pub ack: u32,
    pub seq: u32,
    pub flags: TcpFlags,
}

/// Payload bytes, either borrowed from the capture buffer or owned on the
/// heap. Conversion from borrowed to owned is explicit (see
/// [`PacketManifest::cloned`]); the view is the byte sequence either way.
#[derive(Debug)]
pub enum Payload<'p> {
    Borrowed(&'p [u8]),
    Owned(Vec<u8>),
}

impl<'p> View for Payload<'p> {
    type V = Seq<u8>;

    open spec fn view(&self) -> Seq<u8> {
        match self {
            Payload::Borrowed(s) => s@,
            Payload::Owned(v) => v@,
        }
    }
}

/// Bytewise comparison of two slices.
pub(crate) fn bytes_eq(a: &[u8], b: &[u8]) -> (r: bool)
    ensures
        r == (a@ == b@),
{
    if a.len() != b.len() {
        assert(a@ != b@) by {
            assert(a@.len() != b@.len());
        }
        return false;
    }
    let n: usize = a.len();
    let mut i: usize = 0;
    while i < n
        invariant
            n == a@.len() == b@.len(),
            i <= n,
            forall|k: int| 0 <= k < i ==> a@[k] == b@[k],
        decreases n - i,
    {
        if a[i] != b[i] {
            return false;
        }
        i += 1;
    }
    assert(a@ =~= b@);
    true
}

impl<'p> Payload<'p> {
    /// The payload as a slice, whichever variant holds it.
    pub fn as_slice(&self) -> (r: &[u8])
        ensures
            r@ == self@,
    {
        match self {
            Payload::Borrowed(s) => s,
            Payload::Owned(v) => v.as_slice(),
        }
    }

    /// The number of payload bytes.
    pub fn len(&self) -> (r: usize)
        ensures
            r == self@.len(),
    {
        self.as_slice().len()
    }

    /// Whether the payload is empty.
    pub fn is_empty(&self) -> (r: bool)
        ensures
            r == (self@.len() == 0),
    {
        self.len() == 0
    }

    /// Wraps a borrowed slice.
    pub fn from_slice(payload: &'p [u8]) -> (r: Payload<'p>)
        ensures
            r@ == payload@,
    {
        Payload::Borrowed(payload)
    }

    /// Takes ownership of a byte vector.
    pub fn from_vec(payload: Vec<u8>) -> (r: Payload<'static>)
        ensures
            r@ == payload@,
    {
        Payload::Owned(payload)
    }

    /// The bytes of `range`, indexed relative to the base sequence number
    /// `relatively_to`, borrowed from this payload.
    pub fn sub_payload<'s>(&'s self, range: crate::sequence::SequenceRange, relatively_to: crate::sequence::Sequence) -> (r: Payload<'s>)
        requires
            relatively_to.0 <= range.from.0,
            range.from.0 <= range.to.0,
            range.to.0 - relatively_to.0 < self@.len(),
        ensures
            r@ == self@.subrange(
                range.from.0 - relatively_to.0,
                range.to.0 - relatively_to.0 + 1,
            ),
    {
        let s = self.as_slice();
        let slice_len: usize = s.len();
        proof {
            assert(range.to.0 - relatively_to.0 < slice_len);
        }
        let start: usize = (range.from.0 - relatively_to.0) as usize;
        let end: usize = (range.to.0 - relatively_to.0) as usize;
        Payload::Borrowed(vstd::slice::slice_subrange(s, start, end + 1))
    }
}

impl<'p> PartialEq for Payload<'p> {
    /// Payloads compare by contents, not by where the bytes live.
    fn eq(&self, other: &Payload<'p>) -> (r: bool) {
        bytes_eq(self.as_slice(), other.as_slice())
    }
}

impl<'p> vstd::std_specs::cmp::PartialEqSpecImpl for Payload<'p> {
    open spec fn obeys_eq_spec() -> bool {
        true
    }

    open spec fn eq_spec(&self, other: &Payload<'p>) -> bool {
        self@ == other@
    }
}

/// Everything about one TCP packet that matters for injection detection.
#[derive(Debug, PartialEq)]
pub struct PacketManifest<'p> {
    pub ip: IpLayer,
    pub tcp: TcpLayer,
    pub tcp_payload: Payload<'p>,
}

impl<'p> PacketManifest<'p> {
    /// A deep copy whose payload is owned, so it may outlive the capture
    /// buffer the original borrowed from.
    pub fn cloned(&self) -> (r: PacketManifest<'static>)
        ensures
            r.ip == self.ip,
            r.tcp == self.tcp,
            r.tcp_payload@ == self.tcp_payload@,
    {
        let tcp_payload = Payload::Owned(vstd::slice::slice_to_vec(self.tcp_payload.as_slice()));
        PacketManifest { ip: self.ip, tcp: self.tcp, tcp_payload }
    }

    /// Splits the payload at sequence position `seq_no`.
    ///
    /// Afterwards the receiver holds the prefix `[tcp.seq, seq_no)` and the
    /// returned manifest holds the suffix `[seq_no, tcp.seq + len)` with its
    /// sequence number set to `seq_no`; both ends of the original range may
    /// be chosen, leaving one side empty. Concatenating the receiver's
    /// payload with the result's payload gives back the original bytes.
    pub fn split_off(&mut self, seq_no: crate::sequence::Sequence) -> (r: PacketManifest<'p>)
        requires
            old(self).tcp.seq <= seq_no.0,
            seq_no.0 - old(self).tcp.seq <= old(self).tcp_payload@.len(),
        ensures
            final(self).ip == old(self).ip,
            final(self).tcp == old(self).tcp,
            final(self).tcp_payload@ == old(self).tcp_payload@.subrange(
                0,
                seq_no.0 - old(self).tcp.seq,
            ),
            r.ip == old(self).ip,
            r.tcp == (TcpLayer { seq: seq_no.0, ..old(self).tcp }),
            r.tcp_payload@ == old(self).tcp_payload@.subrange(
                seq_no.0 - old(self).tcp.seq,
                old(self).tcp_payload@.len() as int,
            ),
            final(self).tcp_payload@ + r.tcp_payload@ == old(self).tcp_payload@,
    {
        let ind: usize = (seq_no.0 - self.tcp.seq) as usize;
        let second_tcp = TcpLayer { seq: seq_no.0, ..self.tcp };
        let ghost whole = self.tcp_payload@;
        let second_payload: Payload<'p> = match &mut self.tcp_payload {
            Payload::Owned(payload) => {
                let second = payload.split_off(ind);
                Payload::Owned(second)
            },
            Payload::Borrowed(payload) => {
                let first = vstd::slice::slice_subrange(*payload, 0, ind);
                let second = vstd::slice::slice_subrange(*payload, ind, payload.len());
                *payload = first;
                Payload::Borrowed(second)
            },
        };
        assert(self.tcp_payload@ + second_payload@ =~= whole);
        PacketManifest { ip: self.ip, tcp: second_tcp, tcp_payload: second_payload }
    }
}

/// One direction of a conversation: source endpoint, then destination
/// endpoint.
#[derive(Clone, Copy, Debug, PartialEq, Eq, Structural, PartialOrd, Ord, Hash)]
pub struct Flow {
    pub src_ip: IpAddress,
    pub src_port: u16,
    pub dst_ip: IpAddress,
    pub dst_port: u16,
}

impl Flow {
    /// The flow a packet was sent on.
    pub open spec fn spec_of_packet(packet: PacketManifest) -> Flow {
        Flow {
            src_ip: packet.ip.src,
            src_port: packet.tcp.src,
            dst_ip: packet.ip.dst,
            dst_port: packet.tcp.dst,
        }
    }

    /// Reads the flow off a packet: source endpoint, destination endpoint.
    pub fn of_packet(packet: &PacketManifest) -> (r: Flow)
        ensures
            r == Flow::spec_of_packet(*packet),
    {
        Flow {
            src_ip: packet.ip.src,
            src_port: packet.tcp.src,
            dst_ip: packet.ip.dst,
            dst_port: packet.tcp.dst,
        }
    }

    /// The same conversation seen from the other side.
    pub open spec fn spec_reverse(self) -> Flow {
        Flow {
            src_ip: self.dst_ip,
            src_port: self.dst_port,
            dst_ip: self.src_ip,
            dst_port: self.src_port,
        }
    }

    /// Swaps the endpoints.
    pub fn reverse(self) -> (r: Flow)
        ensures
            r == self.spec_reverse(),
    {
        Flow {
            src_ip: self.dst_ip,
            src_port: self.dst_port,
            dst_ip: self.src_ip,
            dst_port: self.src_port,
        }
    }
}

/// Which endpoint of a connection sent a packet.
#[derive(Clone, Copy, Debug, PartialEq, Eq, Structural)]
pub enum Side {
    Client,
    Server,
}

/// Identifies the sender of a packet within one connection, by the flow as
/// seen from the client and its reverse.
#[derive(Clone, Copy, Debug, PartialEq, Eq, Structural)]
pub struct SideIdentifier {
    pub client_flow: Flow,
    pub server_flow: Flow,
}

impl SideIdentifier {
    /// Seeds the identifier from the client's flow; the server's flow is its
    /// reverse.
    pub fn from_client_flow(client_flow: Flow) -> (r: SideIdentifier)
        ensures
            r.client_flow == client_flow,
            r.server_flow == client_flow.spec_reverse(),
    {
        SideIdentifier { client_flow, server_flow: client_flow.reverse() }
    }

    /// The side a packet was sent from, by the identifier's two flows.
    pub open spec fn spec_identify(self, packet: PacketManifest) -> Side {
        if Flow::spec_of_packet(packet) == self.client_flow {
            Side::Client
        } else {
            Side::Server
        }
    }

    /// Determines which side sent this packet.
    ///
    /// The demultiplexer only hands a connection packets of its own flow, so
    /// a packet from neither side is a caller bug; it is ruled out here
    /// rather than reported.
    pub fn identify(&self, packet: &PacketManifest) -> (r: Side)
        requires
            Flow::spec_of_packet(*packet) == self.client_flow
                || Flow::spec_of_packet(*packet) == self.server_flow,
        ensures
            r == self.spec_identify(*packet),
    {
        if self.client_flow == Flow::of_packet(packet) {
            Side::Client
        } else {
            Side::Server
        }
    }
}

} // verus!
