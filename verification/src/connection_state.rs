//! The per-flow TCP state machine and the handshake-hijack detector.
//!
//! A connection is seeded from the first packet observed for its flow and
//! then driven one packet at a time. Handshake steps that do not match the
//! expected side, flags, or sequence numbers are anomalies: the packet is
//! dropped silently and the state stays put. A server-side SYN/ACK whose
//! acknowledgement number matches the value the legitimate handshake owes
//! the client but whose sequence number differs from the first SYN/ACK seen
//! is reported as a handshake hijack.

use vstd::prelude::*;

use crate::event::{now_datetime, AttackReport, AttackReporter};
use crate::packet::{Flow, PacketManifest, Side, SideIdentifier};
use crate::sequence::Sequence;

verus! {

/// What a new connection is given: its report sink and the packet count
/// below which the hijack detector stays armed during data transfer.
pub struct ConnectionOptions<R: AttackReporter> {
    pub attack_reporter: R,
    pub skip_hijack_detection_count: u64,
}

/// The two halves of a teardown, as seen from the endpoint that sent the
/// first FIN.
#[derive(Clone, Copy, Debug, PartialEq, Eq, Structural)]
pub struct TcpClosing {
    pub initiator: Side,
    pub initiator_state: TcpInitiatingClosingState,
    pub effector_state: TcpInitiatedClosingState,
}

/// The closing states of the endpoint that initiated the teardown.
#[derive(Clone, Copy, Debug, PartialEq, Eq, Structural)]
pub enum TcpInitiatingClosingState {
    FinWait1,
    FinWait2,
    TimeWait,
    Closing,
}

/// The closing states of the endpoint the teardown was initiated against.
#[derive(Clone, Copy, Debug, PartialEq, Eq, Structural)]
pub enum TcpInitiatedClosingState {
    CloseWait,
    LastAck,
}

/// Where a connection stands. The closing states are declared for
/// completeness; their transitions are not tracked.
#[derive(Clone, Copy, Debug, PartialEq, Eq, Structural)]
pub enum TcpState {
    ConnectionRequest,
    ConnectionEstablished,
    DataTransfer,
    ConnectionClosing(TcpClosing),
    Invalid,
    Closed,
}

/// The sink `post` is the sink `pre` after taking exactly one report: the
/// handshake-hijack report owed for `packet` at packet count `count`.
pub open spec fn spec_reported_one<R: AttackReporter>(
    pre: R,
    post: R,
    count: u64,
    packet: PacketManifest,
) -> bool {
    &&& post.spec_reports().len() == pre.spec_reports().len() + 1
    &&& post.spec_reports().drop_last() == pre.spec_reports()
    &&& spec_report_matches(post.spec_reports().last(), count, packet)
    &&& post.spec_is_attack_detected()
}

/// Whether `rep` is the handshake-hijack report owed for `packet` at packet
/// count `count`.
pub open spec fn spec_report_matches(rep: AttackReport, count: u64, packet: PacketManifest) -> bool {
    &&& rep matches AttackReport::HandshakeHijack {
        time: _,
        packet_count,
        flow,
        hijack_seq,
        hijack_ack,
    }
    &&& packet_count == count
    &&& flow == Flow::spec_of_packet(packet)
    &&& hijack_seq == packet.tcp.seq
    &&& hijack_ack == packet.tcp.ack
}

/// Tracks one observed TCP conversation and reports handshake hijacks to
/// its sink.
pub struct Connection<R: AttackReporter> {
    attack_reporter: R,
    side_id: SideIdentifier,
    packet_count: u64,
    skip_hijack_detection_count: u64,
    hijack_next_ack: Sequence,
    state: TcpState,
    client_next_seq: Sequence,
    server_next_seq: Option<Sequence>,
    first_syn_ack_seq: Option<u32>,
}

impl<R: AttackReporter> Connection<R> {
    /// The report sink.
    pub closed spec fn spec_reporter(&self) -> R {
        self.attack_reporter
    }

    /// The connection's two flows.
    pub closed spec fn spec_side_id(&self) -> SideIdentifier {
        self.side_id
    }

    /// How many packets this connection has seen, the seeding one included.
    pub closed spec fn spec_packet_count(&self) -> u64 {
        self.packet_count
    }

    /// The packet count below which the detector stays armed in data
    /// transfer.
    pub closed spec fn spec_skip_count(&self) -> u64 {
        self.skip_hijack_detection_count
    }

    /// The acknowledgement number a hijacking SYN/ACK would carry.
    pub closed spec fn spec_hijack_next_ack(&self) -> Sequence {
        self.hijack_next_ack
    }

    /// Where the connection stands.
    pub closed spec fn spec_state(&self) -> TcpState {
        self.state
    }

    /// The sequence number the client is expected to send next.
    pub closed spec fn spec_client_next_seq(&self) -> Sequence {
        self.client_next_seq
    }

    /// The sequence number the server is expected to send next, once known.
    pub closed spec fn spec_server_next_seq(&self) -> Option<Sequence> {
        self.server_next_seq
    }

    /// The sequence number of the first legitimate SYN/ACK seen.
    pub closed spec fn spec_first_syn_ack_seq(&self) -> Option<u32> {
        self.first_syn_ack_seq
    }

    /// Whether `packet` looks like a forged SYN/ACK racing the legitimate
    /// one: sent from the server side, SYN and ACK set, its acknowledgement
    /// number the one the real handshake owes the client, its sequence
    /// number not the one of the first SYN/ACK seen.
    ///
    /// The acknowledgement number is the field compared against
    /// `hijack_next_ack`: a forger echoes the client's sequence there, so it
    /// is the field that betrays the race.
    pub open spec fn spec_hijack_detected(&self, packet: PacketManifest) -> bool {
        &&& self.spec_side_id().spec_identify(packet) == Side::Server
        &&& packet.tcp.flags.ack
        &&& packet.tcp.flags.syn
        &&& Sequence(packet.tcp.ack) == self.spec_hijack_next_ack()
        &&& !(self.spec_first_syn_ack_seq() matches Some(s) && s == packet.tcp.seq)
    }

    /// Whether `packet` belongs to this connection's flow, in either
    /// direction. The demultiplexer guarantees it for every packet it hands
    /// over.
    pub open spec fn owns_packet(&self, packet: PacketManifest) -> bool {
        Flow::spec_of_packet(packet) == self.spec_side_id().client_flow || Flow::spec_of_packet(
            packet,
        ) == self.spec_side_id().server_flow
    }

    /// Seeds a connection from the first packet observed for its flow, which
    /// is taken to come from the client.
    ///
    /// A SYN without ACK starts a handshake; the expected client sequence
    /// then counts the SYN itself — one past the packet's sequence number
    /// plus its payload length — and the hijack detector is armed on that
    /// value. A FIN or RST closes the connection at once. Anything else is
    /// taken as a conversation observed mid-stream, where no SYN is in
    /// flight: the expected client sequence is the packet's sequence number
    /// plus its payload length.
    pub fn from_packet(packet: PacketManifest, options: ConnectionOptions<R>) -> (r: Connection<R>)
        requires
            packet.tcp_payload@.len() < 0xFFFF_FFFF,
        ensures
            ({
                let is_initial = packet.tcp.flags.syn && !packet.tcp.flags.ack;
                let is_closing = !is_initial && (packet.tcp.flags.fin || packet.tcp.flags.rst);
                let next_seq = if is_initial {
                    Sequence(packet.tcp.seq).spec_add(1).spec_add(
                        packet.tcp_payload@.len() as u32,
                    )
                } else {
                    Sequence(packet.tcp.seq).spec_add(packet.tcp_payload@.len() as u32)
                };
                &&& r.spec_state() == (if is_initial {
                    TcpState::ConnectionRequest
                } else if is_closing {
                    TcpState::Closed
                } else {
                    TcpState::DataTransfer
                })
                &&& r.spec_client_next_seq() == next_seq
                &&& r.spec_server_next_seq() is None
                &&& r.spec_first_syn_ack_seq() is None
                &&& r.spec_skip_count() == (if is_initial {
                    options.skip_hijack_detection_count
                } else {
                    0u64
                })
                &&& r.spec_hijack_next_ack() == (if is_initial {
                    next_seq
                } else {
                    Sequence(0)
                })
                &&& r.spec_packet_count() == 1
                &&& r.spec_side_id().client_flow == Flow::spec_of_packet(packet)
                &&& r.spec_side_id().server_flow == Flow::spec_of_packet(packet).spec_reverse()
                &&& r.spec_reporter() == options.attack_reporter
            }),
    {
        let is_initial_packet = packet.tcp.flags.syn && !packet.tcp.flags.ack;
        let is_closing_packet = !is_initial_packet && (packet.tcp.flags.fin
            || packet.tcp.flags.rst);
        let client_next_seq = if is_initial_packet {
            Sequence(packet.tcp.seq).add(1).add(packet.tcp_payload.len() as u32)
        } else {
            Sequence(packet.tcp.seq).add(packet.tcp_payload.len() as u32)
        };

        Connection {
            attack_reporter: options.attack_reporter,
            state: if is_initial_packet {
                TcpState::ConnectionRequest
            } else if is_closing_packet {
                TcpState::Closed
            } else {
                TcpState::DataTransfer
            },
            client_next_seq,
            server_next_seq: None,
            skip_hijack_detection_count: if is_initial_packet {
                options.skip_hijack_detection_count
            } else {
                0
            },
            hijack_next_ack: if is_initial_packet {
                client_next_seq
            } else {
                Sequence(0)
            },
            packet_count: 1,
            first_syn_ack_seq: None,
            side_id: SideIdentifier::from_client_flow(Flow::of_packet(&packet)),
        }
    }

    /// Where the connection stands.
    pub fn state(&self) -> (r: TcpState)
        ensures
            r == self.spec_state(),
    {
        self.state
    }

    /// The connection's two flows, for checking that a packet belongs here.
    pub fn side_identifier(&self) -> (r: SideIdentifier)
        ensures
            r == self.spec_side_id(),
    {
        self.side_id
    }

    /// How many packets this connection has seen.
    pub fn packet_count(&self) -> (r: u64)
        ensures
            r == self.spec_packet_count(),
    {
        self.packet_count
    }

    /// The report sink, for reading what was reported.
    pub fn reporter(&self) -> (r: &R)
        ensures
            r == self.spec_reporter(),
    {
        &self.attack_reporter
    }

    /// Builds the hijack report for `packet` if the detector conditions all
    /// hold (see [`Connection::spec_hijack_detected`]), carrying the current
    /// wall time, the packet count, the packet's flow and its sequence and
    /// acknowledgement numbers.
    fn detect_hijack(&self, packet: &PacketManifest) -> (r: Option<AttackReport>)
        requires
            self.owns_packet(*packet),
        ensures
            r is Some <==> self.spec_hijack_detected(*packet),
            r matches Some(rep) ==> spec_report_matches(rep, self.spec_packet_count(), *packet),
    {
        if self.side_id.identify(packet) != Side::Server {
            return None;
        }
        if !packet.tcp.flags.ack || !packet.tcp.flags.syn {
            return None;
        }
        if Sequence(packet.tcp.ack) != self.hijack_next_ack {
            return None;
        }
        let seen_first = match self.first_syn_ack_seq {
            Some(s) => s == packet.tcp.seq,
            None => false,
        };
        if seen_first {
            return None;
        }
        Some(
            AttackReport::HandshakeHijack {
                time: now_datetime(),
                packet_count: self.packet_count,
                flow: Flow::of_packet(packet),
                hijack_seq: packet.tcp.seq,
                hijack_ack: packet.tcp.ack,
            },
        )
    }

    /// Awaits the server's SYN/ACK answering the client's SYN.
    ///
    /// Anything but a server-side SYN/ACK acknowledging exactly the expected
    /// client sequence is a handshake anomaly and is dropped silently. On
    /// success the connection is established, the expected server sequence
    /// is one past the SYN/ACK's sequence number plus its payload length,
    /// and the SYN/ACK's sequence number is remembered as the legitimate
    /// one.
    fn state_connection_request(&mut self, packet: PacketManifest)
        requires
            old(self).owns_packet(packet),
            old(self).spec_state() == TcpState::ConnectionRequest,
            packet.tcp_payload@.len() < 0xFFFF_FFFF,
        ensures
            ({
                let accepted = old(self).spec_side_id().spec_identify(packet) == Side::Server
                    && packet.tcp.flags.syn && packet.tcp.flags.ack && old(
                    self,
                ).spec_client_next_seq().spec_sub(Sequence(packet.tcp.ack)) == 0;
                &&& final(self).spec_state() == (if accepted {
                    TcpState::ConnectionEstablished
                } else {
                    TcpState::ConnectionRequest
                })
                &&& final(self).spec_server_next_seq() == (if accepted {
                    Some(
                        Sequence(packet.tcp.seq).spec_add(
                            (packet.tcp_payload@.len() + 1) as u32,
                        ),
                    )
                } else {
                    old(self).spec_server_next_seq()
                })
                &&& final(self).spec_first_syn_ack_seq() == (if accepted {
                    Some(packet.tcp.seq)
                } else {
                    old(self).spec_first_syn_ack_seq()
                })
                &&& final(self).spec_reporter() == old(self).spec_reporter()
                &&& final(self).spec_packet_count() == old(self).spec_packet_count()
                &&& final(self).spec_side_id() == old(self).spec_side_id()
                &&& final(self).spec_skip_count() == old(self).spec_skip_count()
                &&& final(self).spec_hijack_next_ack() == old(self).spec_hijack_next_ack()
                &&& final(self).spec_client_next_seq() == old(self).spec_client_next_seq()
            }),
    {
        if self.side_id.identify(&packet) != Side::Server {
            // handshake anomaly
            return ;
        }
        if !(packet.tcp.flags.syn && packet.tcp.flags.ack) {
            // handshake anomaly
            return ;
        }
        if self.client_next_seq.sub(Sequence(packet.tcp.ack)) != 0 {
            // handshake anomaly
            return ;
        }
        self.state = TcpState::ConnectionEstablished;
        self.server_next_seq = Some(
            Sequence(packet.tcp.seq).add(packet.tcp_payload.len() as u32 + 1),
        );
        self.first_syn_ack_seq = Some(packet.tcp.seq);
    }

    /// Awaits the client's closing ACK of the handshake.
    ///
    /// First, while the sink has latched nothing yet, the hijack detector
    /// runs on the packet. Then anything but a client-side plain ACK with
    /// exactly the expected sequence and acknowledgement numbers is a
    /// handshake anomaly and is dropped silently; on success the connection
    /// moves to data transfer.
    fn state_connection_established(&mut self, packet: PacketManifest)
        requires
            old(self).owns_packet(packet),
            old(self).spec_state() == TcpState::ConnectionEstablished,
        ensures
            ({
                let fired = !old(self).spec_reporter().spec_is_attack_detected() && old(
                    self,
                ).spec_hijack_detected(packet);
                let accepted = old(self).spec_side_id().spec_identify(packet) == Side::Client
                    && !packet.tcp.flags.syn && packet.tcp.flags.ack && Sequence(packet.tcp.seq)
                    == old(self).spec_client_next_seq() && (old(
                    self,
                ).spec_server_next_seq() matches Some(s) && s == Sequence(packet.tcp.ack));
                &&& final(self).spec_state() == (if accepted {
                    TcpState::DataTransfer
                } else {
                    TcpState::ConnectionEstablished
                })
                &&& (if fired {
                    spec_reported_one(
                        old(self).spec_reporter(),
                        final(self).spec_reporter(),
                        (old(self).spec_packet_count()) as u64,
                        packet,
                    )
                } else {
                    final(self).spec_reporter() == old(self).spec_reporter()
                })
                &&& final(self).spec_server_next_seq() == old(self).spec_server_next_seq()
                &&& final(self).spec_first_syn_ack_seq() == old(self).spec_first_syn_ack_seq()
                &&& final(self).spec_packet_count() == old(self).spec_packet_count()
                &&& final(self).spec_side_id() == old(self).spec_side_id()
                &&& final(self).spec_skip_count() == old(self).spec_skip_count()
                &&& final(self).spec_hijack_next_ack() == old(self).spec_hijack_next_ack()
                &&& final(self).spec_client_next_seq() == old(self).spec_client_next_seq()
            }),
    {
        if !self.attack_reporter.is_attack_detected() {
            let detection = self.detect_hijack(&packet);
            if detection.is_some() {
                let report = detection.unwrap();
                self.attack_reporter.report_attack(report);
                proof {
                    assert(self.attack_reporter.spec_reports().drop_last() =~= old(
                        self,
                    ).attack_reporter.spec_reports());
                }
            }
        }
        if self.side_id.identify(&packet) != Side::Client {
            // handshake anomaly
            return ;
        }
        if packet.tcp.flags.syn || !packet.tcp.flags.ack {
            // handshake anomaly
            return ;
        }
        if Sequence(packet.tcp.seq) != self.client_next_seq {
            // handshake anomaly
            return ;
        }
        let server_next_matches = match self.server_next_seq {
            Some(s) => s == Sequence(packet.tcp.ack),
            None => false,
        };
        if !server_next_matches {
            // handshake anomaly
            return ;
        }

        self.state = TcpState::DataTransfer;
    }

    /// Watches the data transfer.
    ///
    /// A conversation observed mid-stream learns the server's sequence
    /// number from the first server-side packet. While the packet count is
    /// below the skip threshold, the hijack detector runs on the packet.
    fn state_data_transfer(&mut self, packet: PacketManifest)
        requires
            old(self).owns_packet(packet),
            old(self).spec_state() == TcpState::DataTransfer,
        ensures
            ({
                let records = old(self).spec_server_next_seq() is None && old(
                    self,
                ).spec_side_id().spec_identify(packet) == Side::Server;
                let fired = old(self).spec_packet_count() < old(self).spec_skip_count() && old(
                    self,
                ).spec_hijack_detected(packet);
                &&& final(self).spec_server_next_seq() == (if records {
                    Some(Sequence(packet.tcp.seq))
                } else {
                    old(self).spec_server_next_seq()
                })
                &&& (if fired {
                    spec_reported_one(
                        old(self).spec_reporter(),
                        final(self).spec_reporter(),
                        (old(self).spec_packet_count()) as u64,
                        packet,
                    )
                } else {
                    final(self).spec_reporter() == old(self).spec_reporter()
                })
                &&& final(self).spec_state() == old(self).spec_state()
                &&& final(self).spec_first_syn_ack_seq() == old(self).spec_first_syn_ack_seq()
                &&& final(self).spec_packet_count() == old(self).spec_packet_count()
                &&& final(self).spec_side_id() == old(self).spec_side_id()
                &&& final(self).spec_skip_count() == old(self).spec_skip_count()
                &&& final(self).spec_hijack_next_ack() == old(self).spec_hijack_next_ack()
                &&& final(self).spec_client_next_seq() == old(self).spec_client_next_seq()
            }),
    {
        let server_next_known = match self.server_next_seq {
            Some(_) => true,
            None => false,
        };
        if !server_next_known && self.side_id.identify(&packet) == Side::Server {
            self.server_next_seq = Some(Sequence(packet.tcp.seq));
        }

        if self.packet_count < self.skip_hijack_detection_count {
            let detection = self.detect_hijack(&packet);
            if detection.is_some() {
                let report = detection.unwrap();
                self.attack_reporter.report_attack(report);
                proof {
                    assert(self.attack_reporter.spec_reports().drop_last() =~= old(
                        self,
                    ).attack_reporter.spec_reports());
                }
            }
        }
    }

    /// Teardown tracking is out of scope; the packet is ignored.
    fn state_connection_closing(&mut self, packet: PacketManifest, sub_state: TcpClosing)
        ensures
            *final(self) == *old(self),
    {
        let _ = packet;
        let _ = sub_state;
    }

    /// A closed connection ignores its packets.
    fn state_closed(&mut self, packet: PacketManifest)
        ensures
            *final(self) == *old(self),
    {
        let _ = packet;
    }

    /// Counts the packet and lets the current state handle it; see the state
    /// handlers for what each state accepts, drops, and reports.
    pub fn receive_packet(&mut self, packet: PacketManifest)
        requires
            old(self).owns_packet(packet),
            old(self).spec_packet_count() < u64::MAX,
            packet.tcp_payload@.len() < 0xFFFF_FFFF,
        ensures
            final(self).spec_packet_count() == old(self).spec_packet_count() + 1,
            final(self).spec_side_id() == old(self).spec_side_id(),
            final(self).spec_skip_count() == old(self).spec_skip_count(),
            final(self).spec_hijack_next_ack() == old(self).spec_hijack_next_ack(),
            final(self).spec_client_next_seq() == old(self).spec_client_next_seq(),
            old(self).spec_state() == TcpState::ConnectionRequest ==> ({
                let accepted = old(self).spec_side_id().spec_identify(packet) == Side::Server
                    && packet.tcp.flags.syn && packet.tcp.flags.ack && old(
                    self,
                ).spec_client_next_seq().spec_sub(Sequence(packet.tcp.ack)) == 0;
                &&& final(self).spec_state() == (if accepted {
                    TcpState::ConnectionEstablished
                } else {
                    TcpState::ConnectionRequest
                })
                &&& final(self).spec_server_next_seq() == (if accepted {
                    Some(
                        Sequence(packet.tcp.seq).spec_add(
                            (packet.tcp_payload@.len() + 1) as u32,
                        ),
                    )
                } else {
                    old(self).spec_server_next_seq()
                })
                &&& final(self).spec_first_syn_ack_seq() == (if accepted {
                    Some(packet.tcp.seq)
                } else {
                    old(self).spec_first_syn_ack_seq()
                })
                &&& final(self).spec_reporter() == old(self).spec_reporter()
            }),
            old(self).spec_state() == TcpState::ConnectionEstablished ==> ({
                let fired = !old(self).spec_reporter().spec_is_attack_detected() && old(
                    self,
                ).spec_hijack_detected(packet);
                let accepted = old(self).spec_side_id().spec_identify(packet) == Side::Client
                    && !packet.tcp.flags.syn && packet.tcp.flags.ack && Sequence(packet.tcp.seq)
                    == old(self).spec_client_next_seq() && (old(
                    self,
                ).spec_server_next_seq() matches Some(s) && s == Sequence(packet.tcp.ack));
                &&& final(self).spec_state() == (if accepted {
                    TcpState::DataTransfer
                } else {
                    TcpState::ConnectionEstablished
                })
                &&& (if fired {
                    spec_reported_one(
                        old(self).spec_reporter(),
                        final(self).spec_reporter(),
                        (old(self).spec_packet_count() + 1) as u64,
                        packet,
                    )
                } else {
                    final(self).spec_reporter() == old(self).spec_reporter()
                })
                &&& final(self).spec_server_next_seq() == old(self).spec_server_next_seq()
                &&& final(self).spec_first_syn_ack_seq() == old(self).spec_first_syn_ack_seq()
            }),
            old(self).spec_state() == TcpState::DataTransfer ==> ({
                let records = old(self).spec_server_next_seq() is None && old(
                    self,
                ).spec_side_id().spec_identify(packet) == Side::Server;
                let fired = old(self).spec_packet_count() + 1 < old(self).spec_skip_count()
                    && old(self).spec_hijack_detected(packet);
                &&& final(self).spec_state() == TcpState::DataTransfer
                &&& final(self).spec_server_next_seq() == (if records {
                    Some(Sequence(packet.tcp.seq))
                } else {
                    old(self).spec_server_next_seq()
                })
                &&& final(self).spec_first_syn_ack_seq() == old(self).spec_first_syn_ack_seq()
                &&& (if fired {
                    spec_reported_one(
                        old(self).spec_reporter(),
                        final(self).spec_reporter(),
                        (old(self).spec_packet_count() + 1) as u64,
                        packet,
                    )
                } else {
                    final(self).spec_reporter() == old(self).spec_reporter()
                })
            }),
            (old(self).spec_state() matches TcpState::ConnectionClosing(_) || old(
                self,
            ).spec_state() == TcpState::Closed || old(self).spec_state() == TcpState::Invalid)
                ==> ({
                &&& final(self).spec_state() == old(self).spec_state()
                &&& final(self).spec_server_next_seq() == old(self).spec_server_next_seq()
                &&& final(self).spec_first_syn_ack_seq() == old(self).spec_first_syn_ack_seq()
                &&& final(self).spec_reporter() == old(self).spec_reporter()
            }),
    {
        self.packet_count = self.packet_count + 1;

        match self.state {
            TcpState::ConnectionRequest => self.state_connection_request(packet),
            TcpState::ConnectionEstablished => self.state_connection_established(packet),
            TcpState::DataTransfer => self.state_data_transfer(packet),
            TcpState::ConnectionClosing(sub_state) => self.state_connection_closing(
                packet,
                sub_state,
            ),
            TcpState::Closed => self.state_closed(packet),
            TcpState::Invalid => {},
        }
    }
}

} // verus!


